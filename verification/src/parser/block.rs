//! Event parsing of block collections: sequence entries (indented and indentless) and
//! mapping keys and values, with the indentation checks that end a collection.
use vstd::prelude::*;
use crate::error::{Marker, ScanError};
use crate::events::{Event, TScalarStyle, TokenType};
use crate::parser::node_parser::{alias_id, node_step, parse_step, same_frame, props_read, node_outcome, took_token,
    moved_to, restored, node_read, scan_failed, anchors_ran_out};
use crate::parser::state_machine::{State, StateMachine};
use crate::parsing::indentation::{IndentationResult, calculate_block_entry_indent,
    validate_block_mapping_indentation, validate_block_sequence_indentation};

verus! {

/// The innermost indentation, zero when none is pushed.
pub open spec fn top_indent(indents: Seq<usize>) -> usize {
    if indents.len() > 0 { indents.last() } else { 0 }
}

/// `new` is `old` after leaving a collection: its indentation popped and the saved state
/// restored.
pub open spec fn left_collection<F: Fn(&str) -> Option<String>>(old: &StateMachine<F>, new: &StateMachine<F>) -> bool {
    &&& new.indents@ == (if old.indents@.len() > 0 { old.indents@.drop_last() } else { old.indents@ })
    &&& (old.states@.len() > 0 ==> new.state == old.states@.last() && new.states@ == old.states@.drop_last())
    &&& (old.states@.len() == 0 ==> new.state == old.state && new.states@ == old.states@)
}

/// The placeholder scalar for an empty entry or value.
pub open spec fn empty_entry(ev: Event) -> bool {
    ev matches Event::Scalar(v, st, a, t) && v@ == "~"@ && st == TScalarStyle::Plain && a == 0 && t is None
}

/// `mid` is `old` with the next token waiting: the one already waiting, else one scanned
/// on from the current position; nothing but the scanner changed.
pub open spec fn peeked<F: Fn(&str) -> Option<String>>(old: &StateMachine<F>, mid: &StateMachine<F>) -> bool {
    &&& mid.wf()
    &&& same_frame(old, mid)
    &&& mid.anchors == old.anchors
    &&& mid.anchor_id == old.anchor_id
    &&& mid.scanner.spec_state().spec_source() == old.scanner.spec_state().spec_source()
    &&& mid.scanner.spec_reported() == old.scanner.spec_reported()
    &&& mid.scanner.spec_state().spec_cached() is Some
    &&& (old.scanner.spec_state().spec_cached() is Some ==> *mid == *old)
}

/// `new` is `mid` with its waiting token consumed and nothing else changed.
pub open spec fn consumed<F: Fn(&str) -> Option<String>>(mid: &StateMachine<F>, new: &StateMachine<F>) -> bool {
    &&& new.wf()
    &&& same_frame(mid, new)
    &&& new.anchors == mid.anchors
    &&& new.anchor_id == mid.anchor_id
    &&& new.scanner.spec_state().spec_source() == mid.scanner.spec_state().spec_source()
    &&& new.scanner.spec_reported() == mid.scanner.spec_reported()
    &&& took_token(mid, new)
}

/// `new` is `m` with `st` entered and the state of `m` saved.
pub open spec fn pushed_state<F: Fn(&str) -> Option<String>>(m: &StateMachine<F>, new: &StateMachine<F>, st: State) -> bool {
    &&& new.state == st
    &&& new.states@ == m.states@.push(m.state)
    &&& new.scanner == m.scanner
    &&& new.anchors == m.anchors
    &&& new.anchor_id == m.anchor_id
    &&& new.indents == m.indents
    &&& new.first_mapping_key == m.first_mapping_key
}

/// A node's start event given the properties read before it.
pub open spec fn with_properties(r: Result<(Event, Marker), ScanError>, aid: usize, tag: Option<TokenType>)
    -> Result<(Event, Marker), ScanError> {
    match r {
        Ok((Event::MappingStart(_), mk)) => Ok((Event::MappingStart(aid), mk)),
        Ok((Event::SequenceStart(_), mk)) => Ok((Event::SequenceStart(aid), mk)),
        Ok((Event::Scalar(v, st, _, _), mk)) => Ok((Event::Scalar(v, st, aid, tag), mk)),
        _ => r,
    }
}

/// A mapping value's node from the token waiting in `m`, after its properties: an alias
/// or a scalar is consumed and given at its mark (the scalar with the properties); any
/// other node is read as a block node, its start carrying the properties.
pub open spec fn value_node_outcome<F: Fn(&str) -> Option<String>>(m: &StateMachine<F>, aid: usize, tag: Option<TokenType>,
    new: &StateMachine<F>, r: Result<(Event, Marker), ScanError>) -> bool {
    let t = m.scanner.spec_state().spec_cached()->0;
    match t.1 {
        TokenType::Alias(name) => r == Ok::<(Event, Marker), ScanError>((Event::Alias(alias_id(m.anchors@, name@)), t.0))
            && took_token(m, new) && moved_to(m, new, State::BlockMappingKey) && new.anchors == m.anchors,
        TokenType::Scalar(st, v) => r == Ok::<(Event, Marker), ScanError>((Event::Scalar(v, st, aid, tag), t.0))
            && took_token(m, new) && moved_to(m, new, State::BlockMappingKey) && new.anchors == m.anchors,
        _ => exists|m3: StateMachine<F>, ri: Result<(Event, Marker), ScanError>|
            #[trigger] pushed_state(m, &m3, State::BlockMappingKey) && node_outcome(&m3, 0, None, true, false, new, ri)
                && #[trigger] with_properties(ri, aid, tag) == r,
    }
}

/// A block mapping value from the token waiting in `mid`: after `:` (consumed), the
/// value's properties and node; without `:`, the empty value at the current mark, the
/// token left in place. Either way the parse moves on to the next key.
pub open spec fn value_outcome<F: Fn(&str) -> Option<String>>(mid: &StateMachine<F>, new: &StateMachine<F>,
    r: Result<(Event, Marker), ScanError>) -> bool {
    let t = mid.scanner.spec_state().spec_cached()->0;
    if t.1 is Value {
        ||| scan_failed(mid, new, r)
        ||| anchors_ran_out(new, r)
        ||| exists|m1: StateMachine<F>, m2: StateMachine<F>, aid: usize, tag: Option<TokenType>|
            consumed(mid, &m1) && #[trigger] props_read(&m1, &m2, aid, tag) && value_node_outcome(&m2, aid, tag, new, r)
    } else {
        &&& r matches Ok((ev, m)) && empty_entry(ev) && m == mid.scanner.spec_state().spec_mark()
        &&& new.scanner == mid.scanner
        &&& moved_to(mid, new, State::BlockMappingKey)
        &&& new.anchors == mid.anchors
        &&& new.anchor_id == mid.anchor_id
    }
}

/// `mid` is `old` with the next token waiting, scanned on from the current position
/// where `fresh` asks for it or no token is waiting; nothing but the scanner changed.
pub open spec fn peeked_on<F: Fn(&str) -> Option<String>>(old: &StateMachine<F>, mid: &StateMachine<F>, fresh: bool) -> bool {
    &&& mid.wf()
    &&& same_frame(old, mid)
    &&& mid.anchors == old.anchors
    &&& mid.anchor_id == old.anchor_id
    &&& mid.scanner.spec_state().spec_source() == old.scanner.spec_state().spec_source()
    &&& mid.scanner.spec_reported() == old.scanner.spec_reported()
    &&& mid.scanner.spec_state().spec_cached() is Some
    &&& (!fresh && old.scanner.spec_state().spec_cached() is Some ==> *mid == *old)
}

/// `m1` is `mid` after its `-` (waiting at `t`) was consumed and the next token looked
/// at, with the content's indentation pushed when it starts on a later line deeper than
/// both the sequence and the dash.
pub open spec fn dash_taken<F: Fn(&str) -> Option<String>>(mid: &StateMachine<F>, m1: &StateMachine<F>) -> bool {
    let t = mid.scanner.spec_state().spec_cached()->0;
    let ind = top_indent(mid.indents@);
    let mk = mid.scanner.spec_state().spec_mark();
    &&& m1.wf()
    &&& m1.anchors == mid.anchors
    &&& m1.anchor_id == mid.anchor_id
    &&& m1.states == mid.states
    &&& m1.state == mid.state
    &&& m1.first_mapping_key == mid.first_mapping_key
    &&& m1.scanner.spec_state().spec_source() == mid.scanner.spec_state().spec_source()
    &&& m1.scanner.spec_reported() == mid.scanner.spec_reported()
    &&& m1.scanner.spec_state().spec_cached() matches Some(n)
        && m1.indents@ == (if n.0.line != mk.line && n.0.col > ind && n.0.col > t.0.col { mid.indents@.push(n.0.col) }
            else { mid.indents@ })
}

/// A sequence entry after its `-`, from the token waiting in `m1`: another `-` gives the
/// empty entry at the dash's mark `mk`, its token left in place; anything else is read
/// as a block node, with the entry state saved to come back to.
pub open spec fn entry_outcome<F: Fn(&str) -> Option<String>>(m1: &StateMachine<F>, mk: Marker, new: &StateMachine<F>,
    r: Result<(Event, Marker), ScanError>) -> bool {
    let n = m1.scanner.spec_state().spec_cached()->0;
    if n.1 is BlockEntry {
        &&& r matches Ok((ev, m)) && empty_entry(ev) && m == mk
        &&& new.scanner == m1.scanner
        &&& moved_to(m1, new, State::BlockSequenceEntry)
        &&& new.indents == m1.indents
        &&& new.anchors == m1.anchors
    } else {
        exists|m3: StateMachine<F>| #[trigger] pushed_state(m1, &m3, State::BlockSequenceEntry)
            && node_read(&m3, new, true, false, r)
    }
}

/// A block sequence entry from the token waiting in `mid`: anything but `-`, or a `-`
/// left of the sequence, ends the sequence (the token left in place); a `-` right of it
/// after the first entry is an indentation error; else the `-` is consumed and the entry
/// read.
pub open spec fn seq_entry_outcome<F: Fn(&str) -> Option<String>>(mid: &StateMachine<F>, first: bool, new: &StateMachine<F>,
    r: Result<(Event, Marker), ScanError>) -> bool {
    let t = mid.scanner.spec_state().spec_cached()->0;
    let ind = top_indent(mid.indents@);
    if !(t.1 is BlockEntry) || t.0.col < ind {
        &&& r == Ok::<(Event, Marker), ScanError>((Event::SequenceEnd,
            if t.1 is BlockEntry { t.0 } else { mid.scanner.spec_state().spec_mark() }))
        &&& left_collection(mid, new)
        &&& new.scanner == mid.scanner
        &&& new.anchors == mid.anchors
        &&& new.anchor_id == mid.anchor_id
    } else if t.0.col > ind && !first {
        r is Err && *new == *mid
    } else {
        ||| scan_failed(mid, new, r)
        ||| exists|m1: StateMachine<F>| #[trigger] dash_taken(mid, &m1)
            && entry_outcome(&m1, mid.scanner.spec_state().spec_mark(), new, r)
    }
}

/// A block sequence entry: `-` at the sequence's indentation gives the entry (an empty
/// one when another `-` follows at once, else its node); a `-` further left, or any other
/// token, ends the sequence; a `-` further right is an indentation error after the first
/// entry.
pub fn block_sequence_entry<F: Fn(&str) -> Option<String>>(parser: &mut StateMachine<F>, first: bool)
    -> (r: Result<(Event, Marker), ScanError>)
    requires
        old(parser).wf(),
    ensures
        final(parser).wf(),
        r matches Ok((ev, _)) ==> node_step(old(parser), final(parser), ev),
        r matches Ok((ev, _)) ==> (ev is SequenceEnd ==> left_collection(old(parser), final(parser))),
        (exists|mid: StateMachine<F>| #[trigger] peeked_on(old(parser), &mid, first)
            && seq_entry_outcome(&mid, first, final(parser), r))
            || scan_failed(old(parser), final(parser), r),
        !first && old(parser).scanner.spec_state().spec_cached() is Some
            ==> seq_entry_outcome(old(parser), false, final(parser), r),
{
    if first {
        parser.scanner.skip();
    }
    let current_indent = match parser.indents.last() {
        Some(i) => *i,
        None => 0,
    };
    let token = parser.scanner.peek_token()?;
    let ghost mid = *parser;
    assert(peeked_on(old(parser), &mid, first));
    assert(current_indent == top_indent(mid.indents@));
    let token_col = token.0.col;
    match &token.1 {
        TokenType::BlockEntry => {
            match validate_block_sequence_indentation(&token, current_indent, first) {
                IndentationResult::Continue => {},
                IndentationResult::EndSequence(marker) => {
                    parser.pop_indent();
                    parser.pop_state();
                    return Ok((Event::SequenceEnd, marker));
                },
                IndentationResult::EndMapping(marker) => {
                    parser.pop_indent();
                    parser.pop_state();
                    return Ok((Event::SequenceEnd, marker));
                },
                IndentationResult::InvalidIndentation { found: _, expected: _, marker } => {
                    return Err(ScanError::new(marker, "invalid indentation"));
                },
            }
            let mk = parser.scanner.mark();
            parser.scanner.skip();
            let mark_after_dash = parser.scanner.mark();
            let next_token = parser.scanner.peek_token()?;
            if let Some(new_indent) = calculate_block_entry_indent(mark_after_dash.line, next_token.0.line,
                next_token.0.col, current_indent, token_col)
            {
                parser.push_indent(new_indent);
            }
            let ghost m1 = *parser;
            assert(dash_taken(&mid, &m1));
            match next_token.1 {
                TokenType::BlockEntry => {
                    parser.state = State::BlockSequenceEntry;
                    Ok((Event::Scalar("~".to_owned(), TScalarStyle::Plain, 0, None), mk))
                },
                _ => {
                    parser.push_state(State::BlockSequenceEntry);
                    let ghost m3 = *parser;
                    assert(pushed_state(&m1, &m3, State::BlockSequenceEntry));
                    parser.parse_node(true, false)
                },
            }
        },
        _ => {
            parser.pop_indent();
            parser.pop_state();
            let mk = parser.scanner.mark();
            Ok((Event::SequenceEnd, mk))
        },
    }
}


/// An indentless sequence entry from the token waiting in `mid`: anything but `-`, or a
/// `-` left of the sequence, ends the sequence (the token left in place); a `-` right of
/// it is an indentation error; else the `-` is consumed, and another `-` right after it
/// gives the empty entry at the dash's mark while any other token is read as a block
/// node, with the entry state saved to come back to.
pub open spec fn indentless_outcome<F: Fn(&str) -> Option<String>>(mid: &StateMachine<F>, new: &StateMachine<F>,
    r: Result<(Event, Marker), ScanError>) -> bool {
    let t = mid.scanner.spec_state().spec_cached()->0;
    let ind = top_indent(mid.indents@);
    let mk = mid.scanner.spec_state().spec_mark();
    if !(t.1 is BlockEntry) || t.0.col < ind {
        &&& r == Ok::<(Event, Marker), ScanError>((Event::SequenceEnd, if t.1 is BlockEntry { t.0 } else { mk }))
        &&& left_collection(mid, new)
        &&& new.scanner == mid.scanner
        &&& new.anchors == mid.anchors
        &&& new.anchor_id == mid.anchor_id
    } else if t.0.col > ind {
        r is Err && *new == *mid
    } else {
        ||| scan_failed(mid, new, r)
        ||| exists|m1: StateMachine<F>| #[trigger] consumed(mid, &m1) && m1.scanner.spec_state().spec_cached() is None
            && ((exists|m2: StateMachine<F>| #[trigger] peeked(&m1, &m2) && (m2.scanner.spec_state().spec_cached() matches Some(n)
                && if n.1 is BlockEntry {
                    (r matches Ok((ev, m)) && empty_entry(ev) && m == mk) && new.scanner == m2.scanner
                        && moved_to(&m2, new, State::IndentlessSequenceEntry) && new.indents == m2.indents
                        && new.anchors == m2.anchors
                } else {
                    exists|m3: StateMachine<F>| #[trigger] pushed_state(&m2, &m3, State::IndentlessSequenceEntry)
                        && node_read(&m3, new, true, false, r)
                })) || scan_failed(mid, new, r))
    }
}

/// An indentless sequence entry (a `-` at the indentation of the mapping around it): like
/// a block sequence entry, but a `-` further right is always an error and nothing else
/// than `-` continues the sequence.
pub fn indentless_sequence_entry<F: Fn(&str) -> Option<String>>(parser: &mut StateMachine<F>)
    -> (r: Result<(Event, Marker), ScanError>)
    requires
        old(parser).wf(),
    ensures
        final(parser).wf(),
        r matches Ok((ev, _)) ==> node_step(old(parser), final(parser), ev),
        r matches Ok((ev, _)) ==> (ev is SequenceEnd ==> left_collection(old(parser), final(parser))),
        (exists|mid: StateMachine<F>| #[trigger] peeked(old(parser), &mid) && indentless_outcome(&mid, final(parser), r))
            || scan_failed(old(parser), final(parser), r),
        old(parser).scanner.spec_state().spec_cached() is Some ==> indentless_outcome(old(parser), final(parser), r),
{
    let token = parser.scanner.peek_token()?;
    let ghost mid = *parser;
    assert(peeked(old(parser), &mid));
    let current_indent = match parser.indents.last() {
        Some(i) => *i,
        None => 0,
    };
    match &token.1 {
        TokenType::BlockEntry => {
            match validate_block_sequence_indentation(&token, current_indent, false) {
                IndentationResult::Continue => {},
                IndentationResult::EndSequence(marker) => {
                    parser.pop_indent();
                    parser.pop_state();
                    return Ok((Event::SequenceEnd, marker));
                },
                IndentationResult::EndMapping(marker) => {
                    parser.pop_indent();
                    parser.pop_state();
                    return Ok((Event::SequenceEnd, marker));
                },
                IndentationResult::InvalidIndentation { found: _, expected: _, marker } => {
                    return Err(ScanError::new(marker, "invalid indentation"));
                },
            }
            let mk = parser.scanner.mark();
            parser.scanner.skip();
            let ghost m1 = *parser;
            assert(consumed(&mid, &m1));
            let next = parser.scanner.peek_token()?;
            let ghost m2 = *parser;
            assert(peeked(&m1, &m2));
            match next.1 {
                TokenType::BlockEntry => {
                    parser.state = State::IndentlessSequenceEntry;
                    Ok((Event::Scalar("~".to_owned(), TScalarStyle::Plain, 0, None), mk))
                },
                _ => {
                    parser.push_state(State::IndentlessSequenceEntry);
                    let ghost m3 = *parser;
                    assert(pushed_state(&m2, &m3, State::IndentlessSequenceEntry));
                    parser.parse_node(true, false)
                },
            }
        },
        _ => {
            parser.pop_indent();
            parser.pop_state();
            let mk = parser.scanner.mark();
            Ok((Event::SequenceEnd, mk))
        },
    }
}

/// A mapping key after its node was read into `m5` with result `ri`: the node is the key
/// when `:` follows, else it is put back and the mapping ends; a node that failed to read
/// ends the mapping too.
pub open spec fn key_after_node<F: Fn(&str) -> Option<String>>(m5: &StateMachine<F>, ri: Result<(Event, Marker), ScanError>,
    new: &StateMachine<F>, r: Result<(Event, Marker), ScanError>) -> bool {
    match ri {
        Ok((ev, mk)) => {
            ||| scan_failed(m5, new, r)
            ||| r == Ok::<(Event, Marker), ScanError>((ev, mk)) && new.state == State::BlockMappingValue
                && new.states == m5.states && new.anchors == m5.anchors
                && (new.scanner.spec_state().spec_cached() matches Some(n) && n.1 is Value)
            ||| r == Ok::<(Event, Marker), ScanError>((Event::MappingEnd, new.scanner.spec_state().spec_mark()))
                && new.current == Some((ev, mk)) && restored(m5, new) && new.anchors == m5.anchors
                && (new.scanner.spec_state().spec_cached() matches Some(n) && !(n.1 is Value))
        },
        Err(_) => {
            &&& r == Ok::<(Event, Marker), ScanError>((Event::MappingEnd, m5.scanner.spec_state().spec_mark()))
            &&& new.scanner == m5.scanner
            &&& new.anchors == m5.anchors
            &&& (m5.states@.len() > 0 ==> new.state == m5.states@.last() && new.states@ == m5.states@.drop_last())
            &&& (m5.states@.len() == 0 ==> new.state == m5.state && new.states@ == m5.states@)
        },
    }
}

/// A block mapping key from the token waiting in `mid`: a token left of the mapping ends
/// it, one right of it is an indentation error (both leave it in place); at the mapping's
/// column a scalar is consumed and is the key when `:` follows, else it is put back and
/// the mapping ends; the document's end ends the mapping; any other node is read as the
/// key (or, failing that, ends the mapping).
pub open spec fn key_outcome<F: Fn(&str) -> Option<String>>(mid: &StateMachine<F>, new: &StateMachine<F>,
    r: Result<(Event, Marker), ScanError>) -> bool {
    let t = mid.scanner.spec_state().spec_cached()->0;
    let ind = top_indent(mid.indents@);
    if t.0.col < ind {
        &&& r == Ok::<(Event, Marker), ScanError>((Event::MappingEnd, t.0))
        &&& left_collection(mid, new)
        &&& new.scanner == mid.scanner
        &&& new.anchors == mid.anchors
    } else if t.0.col > ind {
        r is Err && *new == *mid
    } else if t.1 is StreamEnd || t.1 is DocumentEnd || t.1 is DocumentStart {
        &&& r == Ok::<(Event, Marker), ScanError>((Event::MappingEnd, mid.scanner.spec_state().spec_mark()))
        &&& new.scanner == mid.scanner
        &&& restored(mid, new)
        &&& new.anchors == mid.anchors
    } else {
        match t.1 {
            TokenType::Scalar(st, v) => {
                ||| scan_failed(mid, new, r)
                ||| r == Ok::<(Event, Marker), ScanError>((Event::Scalar(v, st, 0, None), t.0))
                    && moved_to(mid, new, State::BlockMappingValue) && new.indents == mid.indents && new.anchors == mid.anchors
                    && (new.scanner.spec_state().spec_cached() matches Some(n) && n.1 is Value)
                ||| r == Ok::<(Event, Marker), ScanError>((Event::MappingEnd, new.scanner.spec_state().spec_mark()))
                    && new.current == Some((Event::Scalar(v, st, 0, None), t.0)) && restored(mid, new)
                    && new.anchors == mid.anchors
                    && (new.scanner.spec_state().spec_cached() matches Some(n) && !(n.1 is Value))
            },
            _ => {
                ||| scan_failed(mid, new, r)
                ||| exists|m3: StateMachine<F>, m5: StateMachine<F>, ri: Result<(Event, Marker), ScanError>|
                    pushed_state(mid, &m3, mid.state) && #[trigger] node_read(&m3, &m5, true, false, ri)
                        && key_after_node(&m5, ri, new, r)
            },
        }
    }
}

/// A block mapping key: the key read ahead with the mapping's start, if any; else a key at
/// the mapping's indentation (a scalar followed by `:`, or any node followed by `:`). A key
/// further left ends the mapping, one further right is an indentation error; a scalar or
/// node without `:` ends the mapping and is put back, and the document's end ends it too.
pub fn block_mapping_key<F: Fn(&str) -> Option<String>>(parser: &mut StateMachine<F>, first: bool)
    -> (r: Result<(Event, Marker), ScanError>)
    requires
        old(parser).wf(),
    ensures
        final(parser).wf(),
        parse_step(old(parser), final(parser)),
        first && old(parser).first_mapping_key is Some ==> r == Ok::<(Event, Marker), ScanError>(old(parser).first_mapping_key->0)
            && final(parser).state == State::BlockMappingValue && final(parser).first_mapping_key is None
            && final(parser).scanner == old(parser).scanner && final(parser).states == old(parser).states
            && final(parser).indents == old(parser).indents && final(parser).anchors == old(parser).anchors
            && final(parser).anchor_id == old(parser).anchor_id,
        r matches Ok((ev, _)) ==> (ev is MappingEnd || final(parser).state == State::BlockMappingValue),
        !(first && old(parser).first_mapping_key is Some) ==> (
            (exists|mid: StateMachine<F>| #[trigger] peeked(old(parser), &mid) && key_outcome(&mid, final(parser), r))
            || scan_failed(old(parser), final(parser), r)),
        !(first && old(parser).first_mapping_key is Some) && old(parser).scanner.spec_state().spec_cached() is Some
            ==> key_outcome(old(parser), final(parser), r),
{
    if first && parser.first_mapping_key.is_some() {
        if let Some((event, mark)) = parser.first_mapping_key.take() {
            parser.state = State::BlockMappingValue;
            return Ok((event, mark));
        }
        return Err(ScanError::new(Marker::new(), "Expected first mapping key to be present"));
    }
    let token = parser.scanner.peek_token()?;
    let ghost mid = *parser;
    assert(peeked(old(parser), &mid));
    let current_indent = match parser.indents.last() {
        Some(i) => *i,
        None => 0,
    };
    let indent_result = validate_block_mapping_indentation(&token, current_indent, true);
    match indent_result {
        IndentationResult::Continue => {},
        IndentationResult::EndMapping(marker) => {
            parser.pop_indent();
            parser.pop_state();
            return Ok((Event::MappingEnd, marker));
        },
        IndentationResult::EndSequence(marker) => {
            parser.pop_indent();
            parser.pop_state();
            return Ok((Event::MappingEnd, marker));
        },
        IndentationResult::InvalidIndentation { found: _, expected: _, marker } => {
            return Err(ScanError::new(marker, "invalid indentation"));
        },
    }
    match &token.1 {
        TokenType::Scalar(..) => {
            let tok = parser.scanner.fetch_token();
            let (style, val) = match tok.1 {
                TokenType::Scalar(s, v) => (s, v),
                _ => (TScalarStyle::Plain, String::new()),
            };
            match parser.scanner.peek_token()?.1 {
                TokenType::Value => {
                    parser.state = State::BlockMappingValue;
                    Ok((Event::Scalar(val, style, 0, None), tok.0))
                },
                _ => {
                    parser.pop_state();
                    parser.current = Some((Event::Scalar(val, style, 0, None), tok.0));
                    let mk = parser.scanner.mark();
                    Ok((Event::MappingEnd, mk))
                },
            }
        },
        TokenType::StreamEnd | TokenType::DocumentEnd | TokenType::DocumentStart => {
            parser.pop_state();
            let mk = parser.scanner.mark();
            Ok((Event::MappingEnd, mk))
        },
        _ => {
            let saved_state = parser.state;
            parser.push_state(saved_state);
            let ghost m3 = *parser;
            assert(pushed_state(&mid, &m3, mid.state));
            let res = parser.parse_node(true, false);
            let ghost m5 = *parser;
            let ghost ri = res;
            match res {
                Ok((event, mark)) => {
                    let next_token = parser.scanner.peek_token()?;
                    match next_token.1 {
                        TokenType::Value => {
                            parser.state = State::BlockMappingValue;
                            Ok((event, mark))
                        },
                        _ => {
                            parser.pop_state();
                            parser.current = Some((event, mark));
                            let mk = parser.scanner.mark();
                            Ok((Event::MappingEnd, mk))
                        },
                    }
                },
                Err(_) => {
                    let ghost snapshot = *parser;
                    if parser.states.len() > 0 {
                        parser.pop_state();
                    }
                    let mk = parser.scanner.mark();
                    Ok((Event::MappingEnd, mk))
                },
            }
        },
    }
}

/// A block mapping value: after `:`, its properties (an alias gives the value at once),
/// then a scalar, or any other node (which gets the properties). Without `:` the value is
/// empty.
pub fn block_mapping_value<F: Fn(&str) -> Option<String>>(parser: &mut StateMachine<F>)
    -> (r: Result<(Event, Marker), ScanError>)
    requires
        old(parser).wf(),
    ensures
        final(parser).wf(),
        r matches Ok((ev, _)) ==> node_step(old(parser), final(parser), ev),
        r matches Ok((ev, _)) ==> (ev is Alias ==> exists|name: Seq<char>| ev == Event::Alias(alias_id(final(parser).anchors@, name))),
        r matches Ok((ev, _)) ==> (empty_entry(ev) || ev is Alias || ev is Scalar || ev is SequenceStart || ev is MappingStart),
        (exists|mid: StateMachine<F>| #[trigger] peeked(old(parser), &mid) && value_outcome(&mid, final(parser), r))
            || scan_failed(old(parser), final(parser), r),
        old(parser).scanner.spec_state().spec_cached() is Some ==> value_outcome(old(parser), final(parser), r),
{
    let token = parser.scanner.peek_token()?;
    let ghost mid = *parser;
    assert(peeked(old(parser), &mid));
    match token.1 {
        TokenType::Value => {
            let _tok = parser.scanner.fetch_token();
            let ghost m1 = *parser;
            assert(consumed(&mid, &m1));
            let mut anchor_id: usize = 0;
            let mut tag: Option<TokenType> = None;
            let ghost a0 = parser.anchor_id;
            loop
                invariant
                    parser.wf(),
                    parser.scanner.spec_state().spec_source() == old(parser).scanner.spec_state().spec_source(),
                    parser.anchor_id >= old(parser).anchor_id,
                    parser.spec_float() == old(parser).spec_float(),
                    a0 == old(parser).anchor_id,
                    a0 == m1.anchor_id,
                    consumed(&mid, &m1),
                    m1.scanner.spec_state().spec_cached() is None,
                    peeked(old(parser), &mid),
                    mid.scanner.spec_state().spec_cached() matches Some(t) && t.1 is Value,
                    anchor_id == 0 || a0 <= anchor_id < parser.anchor_id,
                    old(parser).scanner.spec_state().spec_cached() matches Some(t) ==> t.1 is Value,
                    same_frame(&m1, parser),
                    parser.anchors@.len() >= m1.anchors@.len(),
                    parser.anchors@.subrange(0, m1.anchors@.len() as int) == m1.anchors@,
                    parser.anchors@.len() - m1.anchors@.len() == parser.anchor_id - m1.anchor_id,
                    anchor_id != 0 ==> parser.anchors@.len() > 0 && parser.anchors@.last().1 == anchor_id,
                    tag matches Some(tt) ==> tt is Tag,
                    parser.scanner.spec_reported() == mid.scanner.spec_reported(),
                ensures
                    parser.wf(),
                    parser.scanner.spec_state().spec_source() == old(parser).scanner.spec_state().spec_source(),
                    parser.anchor_id >= old(parser).anchor_id,
                    parser.spec_float() == old(parser).spec_float(),
                    anchor_id == 0 || a0 <= anchor_id < parser.anchor_id,
                    props_read(&m1, parser, anchor_id, tag),
                    parser.scanner.spec_state().spec_cached() matches Some(t) && !(t.1 is Alias),
                decreases parser.input_left(),
            {
                let ghost before = parser.input_left();
                let token = parser.scanner.peek_token()?;
                match &token.1 {
                    TokenType::Alias(name) => {
                        let ghost m2 = *parser;
                        assert(props_read(&m1, &m2, anchor_id, tag));
                        let tok = parser.scanner.fetch_token();
                        let id = match parser.lookup_anchor(name.as_str()) {
                            Some(aid) => aid,
                            None => 9999999,
                        };
                        parser.state = State::BlockMappingKey;
                        assert(Event::Alias(id) == Event::Alias(alias_id(parser.anchors@, name@)));
                        return Ok((Event::Alias(id), tok.0));
                    },
                    TokenType::Anchor(name) => {
                        if parser.anchor_id == usize::MAX {
                            return Err(ScanError::new(token.0, "too many anchors"));
                        }
                        let _tok = parser.scanner.fetch_token();
                        let ghost pre = parser.anchors@;
                        anchor_id = parser.register_anchor(name.clone());
                        assert(parser.anchors@.subrange(0, m1.anchors@.len() as int)
                            =~= pre.subrange(0, m1.anchors@.len() as int));
                        assert(parser.input_left() < before);
                    },
                    TokenType::Tag(..) => {
                        let tok = parser.scanner.fetch_token();
                        tag = Some(tok.1);
                        assert(parser.input_left() < before);
                    },
                    _ => {
                        break;
                    },
                }
            }
            let token = parser.scanner.peek_token()?;
            let ghost m2 = *parser;
            let ghost g_tag = tag;
            assert(props_read(&m1, &m2, anchor_id, g_tag));
            match &token.1 {
                TokenType::Scalar(..) => {
                    let tok = parser.scanner.fetch_token();
                    let (style, val) = match tok.1 {
                        TokenType::Scalar(s, v) => (s, v),
                        _ => (TScalarStyle::Plain, String::new()),
                    };
                    parser.state = State::BlockMappingKey;
                    Ok((Event::Scalar(val, style, anchor_id, tag), tok.0))
                },
                _ => {
                    parser.push_state(State::BlockMappingKey);
                    let ghost m3 = *parser;
                    assert(pushed_state(&m2, &m3, State::BlockMappingKey));
                    match parser.parse_node(true, false) {
                        Ok((event, mark)) => {
                            let ghost ri = Ok::<(Event, Marker), ScanError>((event, mark));
                            let event = match event {
                                Event::MappingStart(_) => Event::MappingStart(anchor_id),
                                Event::SequenceStart(_) => Event::SequenceStart(anchor_id),
                                Event::Scalar(v, st, _, _) => Event::Scalar(v, st, anchor_id, tag),
                                other => other,
                            };
                            assert(with_properties(ri, anchor_id, g_tag) == Ok::<(Event, Marker), ScanError>((event, mark)));
                            Ok((event, mark))
                        },
                        Err(err) => Err(err),
                    }
                },
            }
        },
        _ => {
            parser.state = State::BlockMappingKey;
            let mk = parser.scanner.mark();
            Ok((Event::Scalar("~".to_owned(), TScalarStyle::Plain, 0, None), mk))
        },
    }
}

} // verus!
