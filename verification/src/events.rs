//! Parser events and the token types that the scanner produces.
use vstd::prelude::*;
use crate::error::Marker;

verus! {

/// Event signals from the parser
#[derive(Clone, PartialEq, Debug, Eq)]
pub enum Event {
    Nothing,
    StreamStart,
    StreamEnd,
    DocumentStart,
    DocumentEnd,
    YamlDirective(u32, u32),
    TagDirective(String, String),
    Alias(usize),
    Scalar(String, TScalarStyle, usize, Option<TokenType>),
    SequenceStart(usize),
    SequenceEnd,
    MappingStart(usize),
    MappingEnd,
}

/// Minimally track scalar style
#[derive(Clone, Copy, PartialEq, Debug, Eq, Structural)]
pub enum TScalarStyle {
    Any,
    Plain,
    SingleQuoted,
    DoubleQuoted,
    Literal,
    Folded,
}

#[derive(Clone, PartialEq, Debug, Eq)]
pub enum TokenType {
    Tag(String, String),
    Anchor(String),
    Alias(String),
    Scalar(TScalarStyle, String),
    DocumentStart,
    DocumentEnd,
    FlowSequenceStart,
    FlowSequenceEnd,
    FlowMappingStart,
    FlowMappingEnd,
    BlockSequenceStart,
    BlockMappingStart,
    BlockEnd,
    Key,
    Value,
    FlowEntry,
    BlockEntry,
    StreamStart(TEncoding),
    StreamEnd,
    VersionDirective(u32, u32),
    TagDirective(String, String),
    Reserved(String),
    NoToken,
}

#[derive(Clone, Copy, PartialEq, Debug, Eq, Structural)]
pub enum TEncoding {
    Utf8,
}

/// A copy of a token type, equal to it.
pub fn copy_token_type(t: &TokenType) -> (r: TokenType)
    ensures
        r == *t,
{
    match t {
        TokenType::Tag(h, x) => TokenType::Tag(h.clone(), x.clone()),
        TokenType::Anchor(n) => TokenType::Anchor(n.clone()),
        TokenType::Alias(n) => TokenType::Alias(n.clone()),
        TokenType::Scalar(st, v) => TokenType::Scalar(*st, v.clone()),
        TokenType::DocumentStart => TokenType::DocumentStart,
        TokenType::DocumentEnd => TokenType::DocumentEnd,
        TokenType::FlowSequenceStart => TokenType::FlowSequenceStart,
        TokenType::FlowSequenceEnd => TokenType::FlowSequenceEnd,
        TokenType::FlowMappingStart => TokenType::FlowMappingStart,
        TokenType::FlowMappingEnd => TokenType::FlowMappingEnd,
        TokenType::BlockSequenceStart => TokenType::BlockSequenceStart,
        TokenType::BlockMappingStart => TokenType::BlockMappingStart,
        TokenType::BlockEnd => TokenType::BlockEnd,
        TokenType::Key => TokenType::Key,
        TokenType::Value => TokenType::Value,
        TokenType::FlowEntry => TokenType::FlowEntry,
        TokenType::BlockEntry => TokenType::BlockEntry,
        TokenType::StreamStart(e) => TokenType::StreamStart(*e),
        TokenType::StreamEnd => TokenType::StreamEnd,
        TokenType::VersionDirective(a, b) => TokenType::VersionDirective(*a, *b),
        TokenType::TagDirective(h, x) => TokenType::TagDirective(h.clone(), x.clone()),
        TokenType::Reserved(n) => TokenType::Reserved(n.clone()),
        TokenType::NoToken => TokenType::NoToken,
    }
}

/// A copy of an event, equal to it.
pub fn copy_event(e: &Event) -> (r: Event)
    ensures
        r == *e,
{
    match e {
        Event::Nothing => Event::Nothing,
        Event::StreamStart => Event::StreamStart,
        Event::StreamEnd => Event::StreamEnd,
        Event::DocumentStart => Event::DocumentStart,
        Event::DocumentEnd => Event::DocumentEnd,
        Event::YamlDirective(a, b) => Event::YamlDirective(*a, *b),
        Event::TagDirective(h, p) => Event::TagDirective(h.clone(), p.clone()),
        Event::Alias(id) => Event::Alias(*id),
        Event::Scalar(v, st, aid, tag) => {
            let t = match tag {
                Some(t) => Some(copy_token_type(t)),
                None => None,
            };
            Event::Scalar(v.clone(), *st, *aid, t)
        },
        Event::SequenceStart(a) => Event::SequenceStart(*a),
        Event::SequenceEnd => Event::SequenceEnd,
        Event::MappingStart(a) => Event::MappingStart(*a),
        Event::MappingEnd => Event::MappingEnd,
    }
}

/// A trait for receiving parser events together with their positions.
pub trait MarkedEventReceiver {
    fn on_event(&mut self, ev: Event, mark: Marker);
}

/// Receives parser events, ignoring their positions.
pub trait EventReceiver {
    fn on_event(&mut self, ev: Event);
}

impl<R: EventReceiver> MarkedEventReceiver for R {
    fn on_event(&mut self, ev: Event, _mark: Marker) {
        EventReceiver::on_event(self, ev);
    }
}

} // verus!
