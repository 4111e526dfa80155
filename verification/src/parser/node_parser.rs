//! Event parsing of a node: its properties (anchor, tag), then an alias, a scalar, or the
//! start of a collection, with the state machine moved to the state that reads the rest.
use vstd::prelude::*;
use crate::error::{Marker, ScanError};
use crate::events::{Event, TScalarStyle, TokenType};
use crate::parser::state_machine::{State, StateMachine, anchor_map};

verus! {

/// The id an alias resolves to: the anchor's id, or a placeholder for an unknown anchor.
pub open spec fn alias_id(anchors: Seq<(String, usize)>, name: Seq<char>) -> usize {
    if anchor_map(anchors).dom().contains(name) { anchor_map(anchors)[name] } else { 9999999 }
}

/// The anchor id an event carries, zero for none.
pub open spec fn event_anchor(ev: Event) -> usize {
    match ev {
        Event::SequenceStart(a) => a,
        Event::MappingStart(a) => a,
        Event::Scalar(_, _, a, _) => a,
        _ => 0,
    }
}

/// What a call that reads a node may leave: the parse still well formed over the same
/// input, anchors only added, and the event carrying no anchor or one registered by it.
pub open spec fn node_step<F: Fn(&str) -> Option<String>>(old: &StateMachine<F>, new: &StateMachine<F>, ev: Event) -> bool {
    &&& new.wf()
    &&& new.scanner.spec_state().spec_source() == old.scanner.spec_state().spec_source()
    &&& new.anchor_id >= old.anchor_id
    &&& new.spec_float() == old.spec_float()
    &&& (event_anchor(ev) == 0 || old.anchor_id <= event_anchor(ev) < new.anchor_id)
}

/// What any parse step leaves: the parse still well formed over the same input, with
/// anchors only added.
pub open spec fn parse_step<F: Fn(&str) -> Option<String>>(old: &StateMachine<F>, new: &StateMachine<F>) -> bool {
    &&& new.wf()
    &&& new.scanner.spec_state().spec_source() == old.scanner.spec_state().spec_source()
    &&& new.anchor_id >= old.anchor_id
    &&& new.spec_float() == old.spec_float()
}

/// Everything of the parse but its scanner and its anchors is as in `a`.
pub open spec fn same_frame<F: Fn(&str) -> Option<String>>(a: &StateMachine<F>, b: &StateMachine<F>) -> bool {
    &&& b.states == a.states
    &&& b.state == a.state
    &&& b.indents == a.indents
    &&& b.first_mapping_key == a.first_mapping_key
    &&& b.current == a.current
    &&& b.context == a.context
    &&& b.spec_float() == a.spec_float()
    &&& b.spec_ast() == a.spec_ast()
    &&& b.spec_pending_tag() == a.spec_pending_tag()
}

/// `mid` is `old` after reading a node's properties, with the token that follows them
/// waiting: reading moved only the scanner on and registered anchors, one per anchor id;
/// `aid` is the id of the last anchor read (zero for none) and `tag` the last tag read.
/// Where `old` already holds a token that is no property, nothing was read.
pub open spec fn props_read<F: Fn(&str) -> Option<String>>(old: &StateMachine<F>, mid: &StateMachine<F>, aid: usize, tag: Option<TokenType>) -> bool {
    &&& mid.wf()
    &&& same_frame(old, mid)
    &&& mid.scanner.spec_state().spec_source() == old.scanner.spec_state().spec_source()
    &&& mid.scanner.spec_reported() == old.scanner.spec_reported()
    &&& mid.scanner.spec_state().spec_cached() matches Some(t) && !(t.1 is Anchor) && !(t.1 is Tag)
    &&& mid.anchors@.len() >= old.anchors@.len()
    &&& mid.anchors@.subrange(0, old.anchors@.len() as int) == old.anchors@
    &&& mid.anchors@.len() - old.anchors@.len() == mid.anchor_id - old.anchor_id
    &&& (aid == 0 || (old.anchor_id <= aid < mid.anchor_id && mid.anchors@.len() > 0 && mid.anchors@.last().1 == aid))
    &&& (tag matches Some(tt) ==> tt is Tag)
    &&& (old.scanner.spec_state().spec_cached() matches Some(t0) ==> (!(t0.1 is Anchor) && !(t0.1 is Tag)
        ==> *mid == *old && aid == 0 && tag is None))
}

/// The errors the scanner reported by `b` extend those it had reported by `a`.
pub open spec fn reported_grew<F: Fn(&str) -> Option<String>>(a: &StateMachine<F>, b: &StateMachine<F>) -> bool {
    &&& b.scanner.spec_reported().len() >= a.scanner.spec_reported().len()
    &&& forall|i: int| 0 <= i < a.scanner.spec_reported().len()
        ==> #[trigger] b.scanner.spec_reported()[i] == a.scanner.spec_reported()[i]
}

/// `r` is the error the scanner reported last, after reporting none of its own between
/// `a` and `b` but this one at least.
pub open spec fn scan_failed<F: Fn(&str) -> Option<String>>(a: &StateMachine<F>, b: &StateMachine<F>,
    r: Result<(Event, Marker), ScanError>) -> bool {
    &&& r matches Err(e) && b.scanner.spec_reported().len() > a.scanner.spec_reported().len()
        && b.scanner.spec_reported().last() == e
}

/// `r` is the error for a node whose anchor would need an id past the last one.
pub open spec fn anchors_ran_out<F: Fn(&str) -> Option<String>>(b: &StateMachine<F>, r: Result<(Event, Marker), ScanError>) -> bool {
    r matches Err(e) && e.info@ == "too many anchors"@ && b.anchor_id == usize::MAX
}

/// The state saved before the node is back, with the indentation and the pending first
/// key as they were.
pub open spec fn restored<F: Fn(&str) -> Option<String>>(mid: &StateMachine<F>, new: &StateMachine<F>) -> bool {
    &&& (mid.states@.len() > 0 ==> new.state == mid.states@.last() && new.states@ == mid.states@.drop_last())
    &&& (mid.states@.len() == 0 ==> new.state == mid.state && new.states@ == mid.states@)
    &&& new.indents == mid.indents
    &&& new.first_mapping_key == mid.first_mapping_key
}

/// The waiting token was consumed and nothing more read.
pub open spec fn took_token<F: Fn(&str) -> Option<String>>(mid: &StateMachine<F>, new: &StateMachine<F>) -> bool {
    &&& new.scanner.spec_state().spec_cached() is None
    &&& new.scanner.spec_state().spec_pos() == mid.scanner.spec_state().spec_pos()
    &&& new.scanner.spec_state().spec_mark() == mid.scanner.spec_state().spec_mark()
}

/// The parse moved to `st`, with the saved states and the pending first key unchanged.
pub open spec fn moved_to<F: Fn(&str) -> Option<String>>(mid: &StateMachine<F>, new: &StateMachine<F>, st: State) -> bool {
    &&& new.state == st
    &&& new.states == mid.states
    &&& new.first_mapping_key == mid.first_mapping_key
}

/// An empty plain scalar with the node's properties at the current mark, the waiting
/// token left in place, back in the saved state.
pub open spec fn empty_node<F: Fn(&str) -> Option<String>>(mid: &StateMachine<F>, new: &StateMachine<F>, aid: usize,
    tag: Option<TokenType>, r: Result<(Event, Marker), ScanError>) -> bool {
    &&& r matches Ok((Event::Scalar(v, st, a, tg), m)) && v@.len() == 0 && st == TScalarStyle::Plain && a == aid
        && tg == tag && m == mid.scanner.spec_state().spec_mark()
    &&& new.scanner == mid.scanner
    &&& restored(mid, new)
}

/// What reading a node does from the token waiting in `mid`, once its properties (`aid`,
/// `tag`) are read: an alias, a flow collection's start or a scalar is consumed and gives
/// its event at the token's mark; in block context a scalar followed by `:` starts a
/// mapping whose first key it becomes; `-` starts a sequence and an explicit key or `:`
/// a mapping where the context allows, the token left for the collection; anything else
/// is an empty scalar. The anchors are not touched.
pub open spec fn node_outcome<F: Fn(&str) -> Option<String>>(mid: &StateMachine<F>, aid: usize, tag: Option<TokenType>,
    block: bool, indentless_seq: bool, new: &StateMachine<F>, r: Result<(Event, Marker), ScanError>) -> bool {
    let t = mid.scanner.spec_state().spec_cached()->0;
    let mk = mid.scanner.spec_state().spec_mark();
    &&& new.anchors == mid.anchors
    &&& new.anchor_id == mid.anchor_id
    &&& match t.1 {
        TokenType::Alias(name) => r == Ok::<(Event, Marker), ScanError>((Event::Alias(alias_id(mid.anchors@, name@)), t.0))
            && took_token(mid, new) && restored(mid, new),
        TokenType::FlowSequenceStart => r == Ok::<(Event, Marker), ScanError>((Event::SequenceStart(aid), t.0))
            && took_token(mid, new) && moved_to(mid, new, State::FlowSequenceFirstEntry) && new.indents == mid.indents,
        TokenType::FlowMappingStart => r == Ok::<(Event, Marker), ScanError>((Event::MappingStart(aid), t.0))
            && took_token(mid, new) && moved_to(mid, new, State::FlowMappingFirstKey) && new.indents == mid.indents,
        TokenType::Scalar(st, v) => if !block {
                r == Ok::<(Event, Marker), ScanError>((Event::Scalar(v, st, aid, tag), t.0))
                    && took_token(mid, new) && restored(mid, new)
            } else {
                ||| r == Ok::<(Event, Marker), ScanError>((Event::Scalar(v, st, aid, tag), t.0)) && restored(mid, new)
                    && !(new.scanner.spec_state().spec_cached() matches Some(n) && n.1 is Value)
                ||| r == Ok::<(Event, Marker), ScanError>((Event::MappingStart(aid), t.0))
                    && new.first_mapping_key == Some((Event::Scalar(v, st, aid, tag), t.0))
                    && new.state == State::BlockMappingFirstKey && new.states == mid.states
                    && new.indents@ == mid.indents@.push(t.0.col)
                    && (new.scanner.spec_state().spec_cached() matches Some(n) && n.1 is Value)
            },
        TokenType::BlockEntry => if indentless_seq || block {
                r == Ok::<(Event, Marker), ScanError>((Event::SequenceStart(aid), t.0)) && new.scanner == mid.scanner
                    && new.indents@ == mid.indents@.push(t.0.col)
                    && moved_to(mid, new, if indentless_seq { State::IndentlessSequenceEntry } else { State::BlockSequenceFirstEntry })
            } else {
                empty_node(mid, new, aid, tag, r)
            },
        TokenType::Key => if block {
                r == Ok::<(Event, Marker), ScanError>((Event::MappingStart(aid), mk)) && new.scanner == mid.scanner
                    && new.indents@ == mid.indents@.push(mk.col) && moved_to(mid, new, State::BlockMappingFirstKey)
            } else {
                empty_node(mid, new, aid, tag, r)
            },
        TokenType::Value => if block {
                r == Ok::<(Event, Marker), ScanError>((Event::MappingStart(aid), mk)) && new.scanner == mid.scanner
                    && new.indents@ == mid.indents@.push(mk.col) && new.state == State::BlockMappingFirstKey
                    && new.states == mid.states
                    && (new.first_mapping_key matches Some((Event::Scalar(v, st, a, tg), m)) && v@.len() == 0
                        && st == TScalarStyle::Plain && a == aid && tg == tag && m == mk)
            } else {
                empty_node(mid, new, aid, tag, r)
            },
        _ => empty_node(mid, new, aid, tag, r),
    }
}

/// What reading a node from `old` does: its properties are read and the node's start
/// follows from the token after them (`node_outcome`); it fails only with an error the
/// scanner reported, or when anchor ids ran out.
pub open spec fn node_read<F: Fn(&str) -> Option<String>>(old: &StateMachine<F>, new: &StateMachine<F>, block: bool,
    indentless_seq: bool, r: Result<(Event, Marker), ScanError>) -> bool {
    &&& reported_grew(old, new)
    &&& {
        ||| exists|mid: StateMachine<F>, aid: usize, tag: Option<TokenType>|
            #[trigger] props_read(old, &mid, aid, tag) && node_outcome(&mid, aid, tag, block, indentless_seq, new, r)
        ||| scan_failed(old, new, r)
        ||| anchors_ran_out(new, r)
    }
}

/// Read a node's properties and then its start: an alias (resolved to its anchor's id), a
/// scalar (in block context, a scalar followed by `:` starts a mapping whose first key it
/// becomes), a block or indentless sequence entry, a flow collection start, or an empty
/// scalar at anything else. Ending at an alias or a scalar returns to the saved state.
pub fn parse_node<F: Fn(&str) -> Option<String>>(parser: &mut StateMachine<F>, block: bool, indentless_seq: bool)
    -> (r: Result<(Event, Marker), ScanError>)
    requires
        old(parser).wf(),
    ensures
        final(parser).wf(),
        parse_step(old(parser), final(parser)),
        r matches Ok((ev, _)) ==> node_step(old(parser), final(parser), ev),
        r matches Ok((ev, _)) ==> ev is Alias || ev is Scalar || ev is SequenceStart || ev is MappingStart,
        r matches Ok((ev, _)) ==> (ev is SequenceStart ==> final(parser).state == State::IndentlessSequenceEntry
            || final(parser).state == State::BlockSequenceFirstEntry || final(parser).state == State::FlowSequenceFirstEntry),
        r matches Ok((ev, _)) ==> (ev is MappingStart ==> final(parser).state == State::BlockMappingFirstKey
            || final(parser).state == State::FlowMappingFirstKey),
        r matches Ok((ev, _)) ==> (ev is Alias ==> exists|name: Seq<char>| ev == Event::Alias(alias_id(final(parser).anchors@, name))),
        node_read(old(parser), final(parser), block, indentless_seq, r),
        old(parser).scanner.spec_state().spec_cached() matches Some(t) ==> (!(t.1 is Anchor) && !(t.1 is Tag)
            ==> node_outcome(old(parser), 0, None, block, indentless_seq, final(parser), r)),
{
    let mut anchor_id: usize = 0;
    let mut tag: Option<TokenType> = None;
    let ghost a0 = parser.anchor_id;
    let ghost mut first = true;
    loop
        invariant
            first ==> anchor_id == 0 && tag is None
                && (old(parser).scanner.spec_state().spec_cached() is Some ==> *parser == *old(parser)),
            !first ==> (old(parser).scanner.spec_state().spec_cached() matches Some(t) ==> (t.1 is Anchor || t.1 is Tag)),
            parser.wf(),
            parser.scanner.spec_state().spec_source() == old(parser).scanner.spec_state().spec_source(),
            parser.anchor_id >= old(parser).anchor_id,
            parser.spec_float() == old(parser).spec_float(),
            a0 == old(parser).anchor_id,
            anchor_id == 0 || a0 <= anchor_id < parser.anchor_id,
            same_frame(old(parser), parser),
            parser.anchors@.len() >= old(parser).anchors@.len(),
            parser.anchors@.subrange(0, old(parser).anchors@.len() as int) == old(parser).anchors@,
            parser.anchors@.len() - old(parser).anchors@.len() == parser.anchor_id - old(parser).anchor_id,
            anchor_id != 0 ==> parser.anchors@.len() > 0 && parser.anchors@.last().1 == anchor_id,
            tag matches Some(tt) ==> tt is Tag,
            parser.scanner.spec_reported() == old(parser).scanner.spec_reported(),
        ensures
            first ==> anchor_id == 0 && tag is None
                && (old(parser).scanner.spec_state().spec_cached() is Some ==> *parser == *old(parser)),
            first ==> (old(parser).scanner.spec_state().spec_cached() matches Some(t)
                ==> !(t.1 is Alias || t.1 is Anchor || t.1 is Tag)),
            parser.wf(),
            parser.scanner.spec_state().spec_source() == old(parser).scanner.spec_state().spec_source(),
            parser.anchor_id >= old(parser).anchor_id,
            parser.spec_float() == old(parser).spec_float(),
            anchor_id == 0 || a0 <= anchor_id < parser.anchor_id,
            same_frame(old(parser), parser),
            parser.anchors@.len() >= old(parser).anchors@.len(),
            parser.anchors@.subrange(0, old(parser).anchors@.len() as int) == old(parser).anchors@,
            parser.anchors@.len() - old(parser).anchors@.len() == parser.anchor_id - old(parser).anchor_id,
            anchor_id != 0 ==> parser.anchors@.len() > 0 && parser.anchors@.last().1 == anchor_id,
            tag matches Some(tt) ==> tt is Tag,
            parser.scanner.spec_reported() == old(parser).scanner.spec_reported(),
            parser.scanner.spec_state().spec_cached() matches Some(t) && !(t.1 is Anchor) && !(t.1 is Tag) && !(t.1 is Alias),
        decreases parser.input_left(),
    {
        let ghost before = parser.input_left();
        let token = parser.scanner.peek_token()?;
        match &token.1 {
            TokenType::Alias(name) => {
                let ghost mid = *parser;
                assert(props_read(old(parser), &mid, anchor_id, tag));
                parser.pop_state();
                let tok = parser.scanner.fetch_token();
                let id = match parser.lookup_anchor(name.as_str()) {
                    Some(aid) => aid,
                    None => 9999999,
                };
                assert(Event::Alias(id) == Event::Alias(alias_id(parser.anchors@, name@)));
                return Ok((Event::Alias(id), tok.0));
            },
            TokenType::Anchor(name) => {
                if parser.anchor_id == usize::MAX {
                    return Err(ScanError::new(token.0, "too many anchors"));
                }
                let tok = parser.scanner.fetch_token();
                let ghost pre = parser.anchors@;
                anchor_id = parser.register_anchor(name.clone());
                assert(parser.anchors@.subrange(0, old(parser).anchors@.len() as int)
                    =~= pre.subrange(0, old(parser).anchors@.len() as int));
                assert(parser.input_left() < before);
                proof { first = false; }
            },
            TokenType::Tag(..) => {
                let tok = parser.scanner.fetch_token();
                tag = Some(tok.1);
                assert(parser.input_left() < before);
                proof { first = false; }
            },
            _ => {
                break;
            },
        }
    }
    let token = parser.scanner.peek_token()?;
    let ghost mid = *parser;
    let ghost g_tag = tag;
    assert(props_read(old(parser), &mid, anchor_id, g_tag));
    match &token.1 {
        TokenType::BlockEntry => {
            if indentless_seq {
                let col = token.0.col;
                parser.push_indent(col);
                parser.state = State::IndentlessSequenceEntry;
                return Ok((Event::SequenceStart(anchor_id), token.0));
            }
            if block {
                let col = token.0.col;
                parser.push_indent(col);
                parser.state = State::BlockSequenceFirstEntry;
                return Ok((Event::SequenceStart(anchor_id), token.0));
            }
            empty_scalar(parser, anchor_id, tag)
        },
        TokenType::Scalar(..) => {
            let tok = parser.scanner.fetch_token();
            let token_mark = tok.0;
            let (style, val) = match tok.1 {
                TokenType::Scalar(s, v) => (s, v),
                _ => (TScalarStyle::Plain, String::new()),
            };
            if block {
                let followed_by_value = match parser.scanner.peek_token() {
                    Ok(next_tok) => matches!(next_tok.1, TokenType::Value),
                    Err(_) => false,
                };
                if followed_by_value {
                    let col = token_mark.col;
                    parser.first_mapping_key = Some((Event::Scalar(val, style, anchor_id, tag), token_mark));
                    parser.push_indent(col);
                    parser.state = State::BlockMappingFirstKey;
                    return Ok((Event::MappingStart(anchor_id), token_mark));
                }
            }
            parser.pop_state();
            Ok((Event::Scalar(val, style, anchor_id, tag), token_mark))
        },
        TokenType::FlowSequenceStart => {
            parser.state = State::FlowSequenceFirstEntry;
            let tok = parser.scanner.fetch_token();
            Ok((Event::SequenceStart(anchor_id), tok.0))
        },
        TokenType::FlowMappingStart => {
            parser.state = State::FlowMappingFirstKey;
            let tok = parser.scanner.fetch_token();
            Ok((Event::MappingStart(anchor_id), tok.0))
        },
        TokenType::StreamEnd | TokenType::DocumentEnd | TokenType::DocumentStart | TokenType::BlockEnd => {
            if anchor_id > 0 || tag.is_some() {
                empty_scalar(parser, anchor_id, tag)
            } else {
                empty_scalar(parser, 0, None)
            }
        },
        TokenType::Key => {
            if block {
                let mk = parser.scanner.mark();
                parser.push_indent(mk.col);
                parser.state = State::BlockMappingFirstKey;
                Ok((Event::MappingStart(anchor_id), mk))
            } else {
                empty_scalar(parser, anchor_id, tag)
            }
        },
        TokenType::Value => {
            if block {
                let mk = parser.scanner.mark();
                parser.push_indent(mk.col);
                parser.state = State::BlockMappingFirstKey;
                parser.first_mapping_key = Some((Event::Scalar(String::new(), TScalarStyle::Plain, anchor_id, tag), mk));
                Ok((Event::MappingStart(anchor_id), mk))
            } else {
                empty_scalar(parser, anchor_id, tag)
            }
        },
        TokenType::FlowEntry | TokenType::FlowSequenceEnd | TokenType::FlowMappingEnd => {
            empty_scalar(parser, anchor_id, tag)
        },
        _ => {
            if anchor_id > 0 || tag.is_some() {
                empty_scalar(parser, anchor_id, tag)
            } else {
                empty_scalar(parser, 0, None)
            }
        },
    }
}

/// An empty plain scalar with the node's properties, at the current mark, back in the
/// saved state.
fn empty_scalar<F: Fn(&str) -> Option<String>>(parser: &mut StateMachine<F>, anchor_id: usize, tag: Option<TokenType>)
    -> (r: Result<(Event, Marker), ScanError>)
    requires
        old(parser).wf(),
    ensures
        final(parser).wf(),
        final(parser).scanner == old(parser).scanner,
        final(parser).anchor_id == old(parser).anchor_id,
        final(parser).anchors == old(parser).anchors,
        final(parser).spec_float() == old(parser).spec_float(),
        restored(old(parser), final(parser)),
        r matches Ok((ev, mk)) && mk == old(parser).scanner.spec_state().spec_mark()
            && (ev matches Event::Scalar(v, st, a, t) && v@.len() == 0 && st == TScalarStyle::Plain && a == anchor_id && t == tag),
{
    parser.pop_state();
    let mk = parser.scanner.mark();
    Ok((Event::Scalar(String::new(), TScalarStyle::Plain, anchor_id, tag), mk))
}

impl<F: Fn(&str) -> Option<String>> StateMachine<F> {
    /// Read a node (see `parse_node`).
    pub fn parse_node(&mut self, block: bool, indentless_seq: bool) -> (r: Result<(Event, Marker), ScanError>)
        requires
            old(self).wf(),
        ensures
            final(self).wf(),
            parse_step(old(self), final(self)),
            r matches Ok((ev, _)) ==> node_step(old(self), final(self), ev),
            r matches Ok((ev, _)) ==> ev is Alias || ev is Scalar || ev is SequenceStart || ev is MappingStart,
            r matches Ok((ev, _)) ==> (ev is Alias ==> exists|name: Seq<char>| ev == Event::Alias(alias_id(final(self).anchors@, name))),
            node_read(old(self), final(self), block, indentless_seq, r),
            old(self).scanner.spec_state().spec_cached() matches Some(t) ==> (!(t.1 is Anchor) && !(t.1 is Tag)
                ==> node_outcome(old(self), 0, None, block, indentless_seq, final(self), r)),
    {
        parse_node(self, block, indentless_seq)
    }
}

} // verus!
