//! Token representation and production for the YAML scanner.
use vstd::prelude::*;
use crate::error::Marker;
use crate::events::{TEncoding, TScalarStyle, TokenType, copy_token_type};

verus! {

/// A token with position information
#[derive(Clone, Debug)]
pub struct Token(pub Marker, pub TokenType);

/// The variant of a token type, numbered in declaration order.
pub open spec fn token_type_variant(t: TokenType) -> nat {
    match t {
        TokenType::Tag(..) => 0,
        TokenType::Anchor(..) => 1,
        TokenType::Alias(..) => 2,
        TokenType::Scalar(..) => 3,
        TokenType::DocumentStart => 4,
        TokenType::DocumentEnd => 5,
        TokenType::FlowSequenceStart => 6,
        TokenType::FlowSequenceEnd => 7,
        TokenType::FlowMappingStart => 8,
        TokenType::FlowMappingEnd => 9,
        TokenType::BlockSequenceStart => 10,
        TokenType::BlockMappingStart => 11,
        TokenType::BlockEnd => 12,
        TokenType::Key => 13,
        TokenType::Value => 14,
        TokenType::FlowEntry => 15,
        TokenType::BlockEntry => 16,
        TokenType::StreamStart(..) => 17,
        TokenType::StreamEnd => 18,
        TokenType::VersionDirective(..) => 19,
        TokenType::TagDirective(..) => 20,
        TokenType::Reserved(..) => 21,
        TokenType::NoToken => 22,
    }
}

/// The variant number of a token type.
pub fn variant_of(t: &TokenType) -> (n: u8)
    ensures
        n == token_type_variant(*t),
{
    match t {
        TokenType::Tag(..) => 0,
        TokenType::Anchor(..) => 1,
        TokenType::Alias(..) => 2,
        TokenType::Scalar(..) => 3,
        TokenType::DocumentStart => 4,
        TokenType::DocumentEnd => 5,
        TokenType::FlowSequenceStart => 6,
        TokenType::FlowSequenceEnd => 7,
        TokenType::FlowMappingStart => 8,
        TokenType::FlowMappingEnd => 9,
        TokenType::BlockSequenceStart => 10,
        TokenType::BlockMappingStart => 11,
        TokenType::BlockEnd => 12,
        TokenType::Key => 13,
        TokenType::Value => 14,
        TokenType::FlowEntry => 15,
        TokenType::BlockEntry => 16,
        TokenType::StreamStart(..) => 17,
        TokenType::StreamEnd => 18,
        TokenType::VersionDirective(..) => 19,
        TokenType::TagDirective(..) => 20,
        TokenType::Reserved(..) => 21,
        TokenType::NoToken => 22,
    }
}

impl Token {
    /// A copy of this token, equal to it.
    pub fn duplicate(&self) -> (r: Token)
        ensures
            r == *self,
    {
        Token(self.0, copy_token_type(&self.1))
    }

    /// Create new token
    pub fn new(marker: Marker, token_type: TokenType) -> (t: Self)
        ensures
            t == Token(marker, token_type),
    {
        Self(marker, token_type)
    }

    /// Get token position
    pub fn position(&self) -> (m: Marker)
        ensures
            m == self.0,
    {
        self.0
    }

    /// Get token type
    pub fn token_type(&self) -> (t: &TokenType)
        ensures
            *t == self.1,
    {
        &self.1
    }

    /// Check if token is of the same variant as `expected` (payloads are not compared)
    pub fn is_type(&self, expected: &TokenType) -> (b: bool)
        ensures
            b == (token_type_variant(self.1) == token_type_variant(*expected)),
    {
        variant_of(&self.1) == variant_of(expected)
    }
}

/// Token producer with constructors for each token type
pub struct TokenProducer {
    encoding: TEncoding,
}

impl TokenProducer {
    pub closed spec fn spec_encoding(&self) -> TEncoding {
        self.encoding
    }

    /// Create new token producer
    pub fn new() -> (p: Self)
        ensures
            p.spec_encoding() == TEncoding::Utf8,
    {
        Self { encoding: TEncoding::Utf8 }
    }

    /// Reset producer state
    pub fn reset(&mut self)
        ensures
            final(self).spec_encoding() == TEncoding::Utf8,
    {
        self.encoding = TEncoding::Utf8;
    }

    /// Set encoding for stream
    pub fn set_encoding(&mut self, encoding: TEncoding)
        ensures
            final(self).spec_encoding() == encoding,
    {
        self.encoding = encoding;
    }

    pub fn stream_start_token(&self, marker: Marker) -> (t: Token)
        ensures
            t == Token(marker, TokenType::StreamStart(self.spec_encoding())),
    {
        Token::new(marker, TokenType::StreamStart(self.encoding))
    }

    pub fn stream_end_token(&self, marker: Marker) -> (t: Token)
        ensures
            t == Token(marker, TokenType::StreamEnd),
    {
        Token::new(marker, TokenType::StreamEnd)
    }

    pub fn no_token(&self, marker: Marker) -> (t: Token)
        ensures
            t == Token(marker, TokenType::NoToken),
    {
        Token::new(marker, TokenType::NoToken)
    }

    pub fn document_start_token(&self, marker: Marker) -> (t: Token)
        ensures
            t == Token(marker, TokenType::DocumentStart),
    {
        Token::new(marker, TokenType::DocumentStart)
    }

    pub fn document_end_token(&self, marker: Marker) -> (t: Token)
        ensures
            t == Token(marker, TokenType::DocumentEnd),
    {
        Token::new(marker, TokenType::DocumentEnd)
    }

    pub fn block_sequence_start_token(&self, marker: Marker) -> (t: Token)
        ensures
            t == Token(marker, TokenType::BlockSequenceStart),
    {
        Token::new(marker, TokenType::BlockSequenceStart)
    }

    pub fn block_mapping_start_token(&self, marker: Marker) -> (t: Token)
        ensures
            t == Token(marker, TokenType::BlockMappingStart),
    {
        Token::new(marker, TokenType::BlockMappingStart)
    }

    pub fn block_end_token(&self, marker: Marker) -> (t: Token)
        ensures
            t == Token(marker, TokenType::BlockEnd),
    {
        Token::new(marker, TokenType::BlockEnd)
    }

    pub fn block_entry_token(&self, marker: Marker) -> (t: Token)
        ensures
            t == Token(marker, TokenType::BlockEntry),
    {
        Token::new(marker, TokenType::BlockEntry)
    }

    pub fn flow_sequence_start_token(&self, marker: Marker) -> (t: Token)
        ensures
            t == Token(marker, TokenType::FlowSequenceStart),
    {
        Token::new(marker, TokenType::FlowSequenceStart)
    }

    pub fn flow_sequence_end_token(&self, marker: Marker) -> (t: Token)
        ensures
            t == Token(marker, TokenType::FlowSequenceEnd),
    {
        Token::new(marker, TokenType::FlowSequenceEnd)
    }

    pub fn flow_mapping_start_token(&self, marker: Marker) -> (t: Token)
        ensures
            t == Token(marker, TokenType::FlowMappingStart),
    {
        Token::new(marker, TokenType::FlowMappingStart)
    }

    pub fn flow_mapping_end_token(&self, marker: Marker) -> (t: Token)
        ensures
            t == Token(marker, TokenType::FlowMappingEnd),
    {
        Token::new(marker, TokenType::FlowMappingEnd)
    }

    pub fn flow_entry_token(&self, marker: Marker) -> (t: Token)
        ensures
            t == Token(marker, TokenType::FlowEntry),
    {
        Token::new(marker, TokenType::FlowEntry)
    }

    pub fn key_token(&self, marker: Marker) -> (t: Token)
        ensures
            t == Token(marker, TokenType::Key),
    {
        Token::new(marker, TokenType::Key)
    }

    pub fn value_token(&self, marker: Marker) -> (t: Token)
        ensures
            t == Token(marker, TokenType::Value),
    {
        Token::new(marker, TokenType::Value)
    }

    pub fn plain_scalar_token(&self, marker: Marker, value: String) -> (t: Token)
        ensures
            t == Token(marker, TokenType::Scalar(TScalarStyle::Plain, value)),
    {
        Token::new(marker, TokenType::Scalar(TScalarStyle::Plain, value))
    }

    pub fn single_quoted_scalar_token(&self, marker: Marker, value: String) -> (t: Token)
        ensures
            t == Token(marker, TokenType::Scalar(TScalarStyle::SingleQuoted, value)),
    {
        Token::new(marker, TokenType::Scalar(TScalarStyle::SingleQuoted, value))
    }

    pub fn double_quoted_scalar_token(&self, marker: Marker, value: String) -> (t: Token)
        ensures
            t == Token(marker, TokenType::Scalar(TScalarStyle::DoubleQuoted, value)),
    {
        Token::new(marker, TokenType::Scalar(TScalarStyle::DoubleQuoted, value))
    }

    pub fn literal_scalar_token(&self, marker: Marker, value: String) -> (t: Token)
        ensures
            t == Token(marker, TokenType::Scalar(TScalarStyle::Literal, value)),
    {
        Token::new(marker, TokenType::Scalar(TScalarStyle::Literal, value))
    }

    pub fn folded_scalar_token(&self, marker: Marker, value: String) -> (t: Token)
        ensures
            t == Token(marker, TokenType::Scalar(TScalarStyle::Folded, value)),
    {
        Token::new(marker, TokenType::Scalar(TScalarStyle::Folded, value))
    }

    pub fn anchor_token(&self, marker: Marker, name: String) -> (t: Token)
        ensures
            t == Token(marker, TokenType::Anchor(name)),
    {
        Token::new(marker, TokenType::Anchor(name))
    }

    pub fn alias_token(&self, marker: Marker, name: String) -> (t: Token)
        ensures
            t == Token(marker, TokenType::Alias(name)),
    {
        Token::new(marker, TokenType::Alias(name))
    }

    pub fn tag_token(&self, marker: Marker, handle: String, suffix: String) -> (t: Token)
        ensures
            t == Token(marker, TokenType::Tag(handle, suffix)),
    {
        Token::new(marker, TokenType::Tag(handle, suffix))
    }

    pub fn version_directive_token(&self, marker: Marker, major: u32, minor: u32) -> (t: Token)
        ensures
            t == Token(marker, TokenType::VersionDirective(major, minor)),
    {
        Token::new(marker, TokenType::VersionDirective(major, minor))
    }

    pub fn tag_directive_token(&self, marker: Marker, handle: String, prefix: String) -> (t: Token)
        ensures
            t == Token(marker, TokenType::TagDirective(handle, prefix)),
    {
        Token::new(marker, TokenType::TagDirective(handle, prefix))
    }

    pub fn reserved_directive_token(&self, marker: Marker, name: String) -> (t: Token)
        ensures
            t == Token(marker, TokenType::Reserved(name)),
    {
        Token::new(marker, TokenType::Reserved(name))
    }
}

impl Default for TokenProducer {
    fn default() -> (p: Self)
        ensures
            p.spec_encoding() == TEncoding::Utf8,
    {
        Self::new()
    }
}

/// A stream over a slice of tokens
pub struct TokenStream<'a> {
    tokens: &'a [Token],
    next: usize,
}

impl<'a> TokenStream<'a> {
    /// The tokens not yet taken.
    pub closed spec fn remaining(&self) -> Seq<Token> {
        self.tokens@.skip(self.next as int)
    }

    pub closed spec fn wf(&self) -> bool {
        self.next <= self.tokens@.len()
    }

    /// Create new token stream from slice
    pub fn new(tokens: &'a [Token]) -> (s: Self)
        ensures
            s.wf(),
            s.remaining() == tokens@,
    {
        let s = Self { tokens, next: 0 };
        assert(tokens@.skip(0) =~= tokens@);
        s
    }

    /// Peek at next token without consuming
    pub fn peek(&mut self) -> (r: Option<&'a Token>)
        requires
            old(self).wf(),
        ensures
            final(self).wf(),
            final(self).remaining() == old(self).remaining(),
            r == if old(self).remaining().len() > 0 { Some(&old(self).remaining()[0]) } else { None::<&Token> },
    {
        if self.next < self.tokens.len() {
            Some(&self.tokens[self.next])
        } else {
            None
        }
    }

    /// Check if stream is empty
    pub fn is_empty(&self) -> (b: bool)
        requires
            self.wf(),
        ensures
            b == (self.remaining().len() == 0),
    {
        self.next >= self.tokens.len()
    }

    /// Get remaining token count
    pub fn len(&self) -> (n: usize)
        requires
            self.wf(),
        ensures
            n == self.remaining().len(),
    {
        self.tokens.len() - self.next
    }

    /// Take the next token
    pub fn next(&mut self) -> (r: Option<&'a Token>)
        requires
            old(self).wf(),
        ensures
            final(self).wf(),
            old(self).remaining().len() == 0 ==> r is None && final(self).remaining() == old(self).remaining(),
            old(self).remaining().len() > 0 ==> r == Some(&old(self).remaining()[0])
                && final(self).remaining() == old(self).remaining().drop_first(),
    {
        if self.next < self.tokens.len() {
            let t = &self.tokens[self.next];
            self.next = self.next + 1;
            assert(self.tokens@.skip(self.next as int) =~= self.tokens@.skip(self.next - 1).drop_first());
            Some(t)
        } else {
            None
        }
    }
}

} // verus!
