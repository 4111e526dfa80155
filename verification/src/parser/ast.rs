//! The syntax tree of parsed YAML: streams of documents whose nodes are scalars,
//! sequences, mappings, anchored, aliased and tagged nodes, and nulls, each with its
//! source position.
use vstd::prelude::*;
use crate::lexer::{Position, ScalarStyle};
use crate::parser::loader::{parse_i64, i64_reading};
use crate::text::{str_to_chars, push_str};

pub mod utils;
pub mod view;

verus! {

/// A complete YAML stream containing multiple documents
#[derive(Debug)]
pub struct Stream {
    pub documents: Vec<Document>,
}

impl Stream {
    pub fn new(documents: Vec<Document>) -> (s: Self)
        ensures
            s.documents == documents,
    {
        Self { documents }
    }

    pub fn is_empty(&self) -> (b: bool)
        ensures
            b == (self.documents@.len() == 0),
    {
        self.documents.len() == 0
    }

    pub fn len(&self) -> (n: usize)
        ensures
            n == self.documents@.len(),
    {
        self.documents.len()
    }

    /// The documents, in order.
    pub fn iter(&self) -> (d: &[Document])
        ensures
            d@ == self.documents@,
    {
        self.documents.as_slice()
    }
}

/// A single YAML document
#[derive(Debug)]
pub struct Document {
    pub content: Option<Node>,
    pub has_explicit_start: bool,
    pub has_explicit_end: bool,
    pub position: Position,
}

impl Document {
    pub fn new(content: Option<Node>, has_explicit_start: bool, has_explicit_end: bool, position: Position) -> (d: Self)
        ensures
            d.content == content,
            d.has_explicit_start == has_explicit_start,
            d.has_explicit_end == has_explicit_end,
            d.position == position,
    {
        Self { content, has_explicit_start, has_explicit_end, position }
    }

    pub fn is_empty(&self) -> (b: bool)
        ensures
            b == (self.content is None),
    {
        self.content.is_none()
    }
}

/// A YAML node representing any value in the AST
#[derive(Debug)]
pub enum Node {
    /// Scalar value (string, number, boolean, null)
    Scalar(ScalarNode),
    /// Sequence/array [item1, item2, ...]
    Sequence(SequenceNode),
    /// Mapping/object {key1: value1, key2: value2, ...}
    Mapping(MappingNode),
    /// Anchor definition &anchor
    Anchor(AnchorNode),
    /// Alias reference *alias
    Alias(AliasNode),
    /// Tagged value !tag value
    Tagged(TaggedNode),
    /// Explicit null value
    Null(NullNode),
}

/// The position recorded in a node.
pub open spec fn node_position(n: Node) -> Position {
    match n {
        Node::Scalar(x) => x.position,
        Node::Sequence(x) => x.position,
        Node::Mapping(x) => x.position,
        Node::Anchor(x) => x.position,
        Node::Alias(x) => x.position,
        Node::Tagged(x) => x.position,
        Node::Null(x) => x.position,
    }
}

impl Node {
    /// Get the position of this node
    pub fn position(&self) -> (p: Position)
        ensures
            p == node_position(*self),
    {
        match self {
            Node::Scalar(n) => n.position,
            Node::Sequence(n) => n.position,
            Node::Mapping(n) => n.position,
            Node::Anchor(n) => n.position,
            Node::Alias(n) => n.position,
            Node::Tagged(n) => n.position,
            Node::Null(n) => n.position,
        }
    }

    pub fn is_scalar(&self) -> (b: bool)
        ensures
            b == (*self is Scalar),
    {
        matches!(self, Node::Scalar(_))
    }

    pub fn is_sequence(&self) -> (b: bool)
        ensures
            b == (*self is Sequence),
    {
        matches!(self, Node::Sequence(_))
    }

    pub fn is_mapping(&self) -> (b: bool)
        ensures
            b == (*self is Mapping),
    {
        matches!(self, Node::Mapping(_))
    }

    pub fn is_null(&self) -> (b: bool)
        ensures
            b == (*self is Null),
    {
        matches!(self, Node::Null(_))
    }

    /// Get scalar value if this is a scalar node
    pub fn as_scalar(&self) -> (r: Option<&ScalarNode>)
        ensures
            match *self {
                Node::Scalar(s) => r == Some(&s),
                _ => r is None,
            },
    {
        match self {
            Node::Scalar(scalar) => Some(scalar),
            _ => None,
        }
    }

    /// Get sequence if this is a sequence node
    pub fn as_sequence(&self) -> (r: Option<&SequenceNode>)
        ensures
            match *self {
                Node::Sequence(s) => r == Some(&s),
                _ => r is None,
            },
    {
        match self {
            Node::Sequence(seq) => Some(seq),
            _ => None,
        }
    }

    /// Get mapping if this is a mapping node
    pub fn as_mapping(&self) -> (r: Option<&MappingNode>)
        ensures
            match *self {
                Node::Mapping(m) => r == Some(&m),
                _ => r is None,
            },
    {
        match self {
            Node::Mapping(map) => Some(map),
            _ => None,
        }
    }
}

/// A scalar value node
#[derive(Debug)]
pub struct ScalarNode {
    pub value: String,
    pub style: ScalarStyle,
    pub tag: Option<String>,
    pub position: Position,
}

/// The words a scalar reads as a boolean, in the three spellings of each.
pub open spec fn scalar_bool(v: Seq<char>) -> Option<bool> {
    if v == "true"@ || v == "True"@ || v == "TRUE"@ || v == "yes"@ || v == "Yes"@ || v == "YES"@
        || v == "on"@ || v == "On"@ || v == "ON"@ {
        Some(true)
    } else if v == "false"@ || v == "False"@ || v == "FALSE"@ || v == "no"@ || v == "No"@ || v == "NO"@
        || v == "off"@ || v == "Off"@ || v == "OFF"@ {
        Some(false)
    } else {
        None
    }
}

/// The texts a scalar reads as null.
pub open spec fn scalar_null(v: Seq<char>) -> bool {
    v == "null"@ || v == "Null"@ || v == "NULL"@ || v == "~"@ || v.len() == 0
}

impl ScalarNode {
    pub fn new(value: String, style: ScalarStyle, tag: Option<String>, position: Position) -> (n: Self)
        ensures
            n == (ScalarNode { value, style, tag, position }),
    {
        Self { value, style, tag, position }
    }

    /// Get the string value
    pub fn as_str(&self) -> (s: &str)
        ensures
            s@ == self.value@,
    {
        self.value.as_str()
    }

    /// Parse as integer (`str::parse::<i64>`)
    pub fn as_int(&self) -> (r: Option<i64>)
        ensures
            r == i64_reading(self.value@),
    {
        let v = str_to_chars(self.value.as_str());
        parse_i64(v.as_slice())
    }

    /// Parse as boolean: true, yes and on, false, no and off, in lower, capitalized or upper
    /// case.
    pub fn as_bool(&self) -> (r: Option<bool>)
        ensures
            r == scalar_bool(self.value@),
    {
        let v = self.value.as_str();
        if crate::text::str_eq(v, "true") || crate::text::str_eq(v, "True") || crate::text::str_eq(v, "TRUE")
            || crate::text::str_eq(v, "yes") || crate::text::str_eq(v, "Yes") || crate::text::str_eq(v, "YES")
            || crate::text::str_eq(v, "on") || crate::text::str_eq(v, "On") || crate::text::str_eq(v, "ON")
        {
            Some(true)
        } else if crate::text::str_eq(v, "false") || crate::text::str_eq(v, "False") || crate::text::str_eq(v, "FALSE")
            || crate::text::str_eq(v, "no") || crate::text::str_eq(v, "No") || crate::text::str_eq(v, "NO")
            || crate::text::str_eq(v, "off") || crate::text::str_eq(v, "Off") || crate::text::str_eq(v, "OFF")
        {
            Some(false)
        } else {
            None
        }
    }

    /// Check if this represents a null value: `null` in three spellings, `~`, or nothing.
    pub fn is_null(&self) -> (b: bool)
        ensures
            b == scalar_null(self.value@),
    {
        let v = self.value.as_str();
        crate::text::str_eq(v, "null") || crate::text::str_eq(v, "Null") || crate::text::str_eq(v, "NULL")
            || crate::text::str_eq(v, "~") || v.unicode_len() == 0
    }
}

/// A sequence/array node
#[derive(Debug)]
pub struct SequenceNode {
    pub items: Vec<Node>,
    pub style: SequenceStyle,
    pub position: Position,
}

impl SequenceNode {
    pub fn new(items: Vec<Node>, style: SequenceStyle, position: Position) -> (n: Self)
        ensures
            n == (SequenceNode { items, style, position }),
    {
        Self { items, style, position }
    }

    pub fn len(&self) -> (n: usize)
        ensures
            n == self.items@.len(),
    {
        self.items.len()
    }

    pub fn is_empty(&self) -> (b: bool)
        ensures
            b == (self.items@.len() == 0),
    {
        self.items.len() == 0
    }

    /// The items, in order.
    pub fn iter(&self) -> (s: &[Node])
        ensures
            s@ == self.items@,
    {
        self.items.as_slice()
    }

    pub fn get(&self, index: usize) -> (r: Option<&Node>)
        ensures
            index < self.items@.len() ==> r == Some(&self.items@[index as int]),
            index >= self.items@.len() ==> r is None,
    {
        if index < self.items.len() {
            Some(&self.items[index])
        } else {
            None
        }
    }
}

/// Sequence representation style
#[derive(Debug, Clone, Copy, PartialEq, Eq, Structural)]
pub enum SequenceStyle {
    /// Flow style: [item1, item2, item3]
    Flow,
    /// Block style, one `- item` per line
    Block,
}

/// A mapping/object node
#[derive(Debug)]
pub struct MappingNode {
    pub pairs: Vec<MappingPair>,
    pub style: MappingStyle,
    pub position: Position,
}

/// A pair whose key is a scalar with the text `key`.
pub open spec fn pair_has_key(p: MappingPair, key: Seq<char>) -> bool {
    p.key matches Node::Scalar(s) && s.value@ == key
}

/// The texts of the scalar keys among `pairs`, in order.
pub open spec fn scalar_keys(pairs: Seq<MappingPair>) -> Seq<Seq<char>>
    decreases pairs.len(),
{
    if pairs.len() == 0 {
        Seq::empty()
    } else {
        scalar_keys(pairs.drop_last()) + match pairs.last().key {
            Node::Scalar(s) => seq![s.value@],
            _ => Seq::empty(),
        }
    }
}

impl MappingNode {
    pub fn new(pairs: Vec<MappingPair>, style: MappingStyle, position: Position) -> (n: Self)
        ensures
            n == (MappingNode { pairs, style, position }),
    {
        Self { pairs, style, position }
    }

    pub fn len(&self) -> (n: usize)
        ensures
            n == self.pairs@.len(),
    {
        self.pairs.len()
    }

    pub fn is_empty(&self) -> (b: bool)
        ensures
            b == (self.pairs@.len() == 0),
    {
        self.pairs.len() == 0
    }

    /// The pairs, in order.
    pub fn iter(&self) -> (s: &[MappingPair])
        ensures
            s@ == self.pairs@,
    {
        self.pairs.as_slice()
    }

    /// Find value by key: that of the first pair whose key is a scalar with that text.
    pub fn get(&self, key: &str) -> (r: Option<&Node>)
        ensures
            r matches Some(v) ==> exists|i: int| 0 <= i < self.pairs@.len() && pair_has_key(#[trigger] self.pairs@[i], key@)
                && *v == self.pairs@[i].value && forall|j: int| 0 <= j < i ==> !pair_has_key(#[trigger] self.pairs@[j], key@),
            r is None ==> forall|i: int| 0 <= i < self.pairs@.len() ==> !pair_has_key(#[trigger] self.pairs@[i], key@),
    {
        let mut i: usize = 0;
        while i < self.pairs.len()
            invariant
                i <= self.pairs@.len(),
                forall|j: int| 0 <= j < i ==> !pair_has_key(#[trigger] self.pairs@[j], key@),
            decreases self.pairs@.len() - i,
        {
            let pair = &self.pairs[i];
            if let Some(scalar) = pair.key.as_scalar() {
                if crate::text::str_eq(scalar.as_str(), key) {
                    assert(pair_has_key(self.pairs@[i as int], key@));
                    return Some(&pair.value);
                }
            }
            i = i + 1;
        }
        None
    }

    /// Get all keys as strings (those that are scalars), in order.
    pub fn keys(&self) -> (ks: Vec<String>)
        ensures
            ks@.len() == scalar_keys(self.pairs@).len(),
            forall|i: int| 0 <= i < ks@.len() ==> (#[trigger] ks@[i])@ == scalar_keys(self.pairs@)[i],
    {
        let mut ks: Vec<String> = Vec::new();
        let mut i: usize = 0;
        while i < self.pairs.len()
            invariant
                i <= self.pairs@.len(),
                ks@.len() == scalar_keys(self.pairs@.take(i as int)).len(),
                forall|q: int| 0 <= q < ks@.len() ==> (#[trigger] ks@[q])@ == scalar_keys(self.pairs@.take(i as int))[q],
            decreases self.pairs@.len() - i,
        {
            proof {
                assert(self.pairs@.take(i + 1).drop_last() =~= self.pairs@.take(i as int));
            }
            let ghost prev = ks@;
            match &self.pairs[i].key {
                Node::Scalar(s) => {
                    ks.push(s.value.clone());
                    proof {
                        assert forall|q: int| 0 <= q < ks@.len() implies (#[trigger] ks@[q])@ == scalar_keys(self.pairs@.take(i + 1))[q] by {
                            if q < prev.len() { assert(ks@[q] == prev[q]); }
                        }
                    }
                },
                _ => {},
            }
            i = i + 1;
        }
        proof { assert(self.pairs@.take(self.pairs@.len() as int) =~= self.pairs@); }
        ks
    }
}

/// Mapping representation style
#[derive(Debug, Clone, Copy, PartialEq, Eq, Structural)]
pub enum MappingStyle {
    /// Flow style: {key1: value1, key2: value2}
    Flow,
    /// Block style, one `key: value` per line
    Block,
}

/// A key-value pair in a mapping
#[derive(Debug)]
pub struct MappingPair {
    pub key: Node,
    pub value: Node,
}

impl MappingPair {
    pub fn new(key: Node, value: Node) -> (p: Self)
        ensures
            p == (MappingPair { key, value }),
    {
        Self { key, value }
    }
}

/// An anchor definition node
#[derive(Debug)]
pub struct AnchorNode {
    pub name: String,
    pub node: Box<Node>,
    pub position: Position,
}

impl AnchorNode {
    pub fn new(name: String, node: Box<Node>, position: Position) -> (n: Self)
        ensures
            n == (AnchorNode { name, node, position }),
    {
        Self { name, node, position }
    }
}

/// An alias reference node
#[derive(Debug)]
pub struct AliasNode {
    pub name: String,
    pub position: Position,
}

impl AliasNode {
    pub fn new(name: String, position: Position) -> (n: Self)
        ensures
            n == (AliasNode { name, position }),
    {
        Self { name, position }
    }
}

/// A tagged value node
#[derive(Debug)]
pub struct TaggedNode {
    pub handle: Option<String>,
    pub suffix: String,
    pub node: Box<Node>,
    pub position: Position,
}

impl TaggedNode {
    pub fn new(handle: Option<String>, suffix: String, node: Box<Node>, position: Position) -> (n: Self)
        ensures
            n == (TaggedNode { handle, suffix, node, position }),
    {
        Self { handle, suffix, node, position }
    }

    /// Get the full tag name: the handle (if any) followed by the suffix.
    pub fn tag_name(&self) -> (s: String)
        ensures
            s@ == match self.handle {
                Some(h) => h@ + self.suffix@,
                None => self.suffix@,
            },
    {
        match &self.handle {
            Some(handle) => {
                let mut s = handle.clone();
                push_str(&mut s, self.suffix.as_str());
                s
            },
            None => self.suffix.clone(),
        }
    }
}

/// An explicit null node
#[derive(Debug, Clone, Copy, PartialEq, Eq, Structural)]
pub struct NullNode {
    pub position: Position,
}

impl NullNode {
    pub fn new(position: Position) -> (n: Self)
        ensures
            n.position == position,
    {
        Self { position }
    }
}

/// Visitor pattern for AST traversal
pub trait NodeVisitor {
    type Output;
    type Error;

    fn visit_scalar(&mut self, node: &ScalarNode) -> Result<Self::Output, Self::Error>;
    fn visit_sequence(&mut self, node: &SequenceNode) -> Result<Self::Output, Self::Error>;
    fn visit_mapping(&mut self, node: &MappingNode) -> Result<Self::Output, Self::Error>;
    fn visit_anchor(&mut self, node: &AnchorNode) -> Result<Self::Output, Self::Error>;
    fn visit_alias(&mut self, node: &AliasNode) -> Result<Self::Output, Self::Error>;
    fn visit_tagged(&mut self, node: &TaggedNode) -> Result<Self::Output, Self::Error>;
    fn visit_null(&mut self, node: &NullNode) -> Result<Self::Output, Self::Error>;

    /// Visit a node by its kind.
    fn visit_node(&mut self, node: &Node) -> Result<Self::Output, Self::Error> {
        match node {
            Node::Scalar(n) => self.visit_scalar(n),
            Node::Sequence(n) => self.visit_sequence(n),
            Node::Mapping(n) => self.visit_mapping(n),
            Node::Anchor(n) => self.visit_anchor(n),
            Node::Alias(n) => self.visit_alias(n),
            Node::Tagged(n) => self.visit_tagged(n),
            Node::Null(n) => self.visit_null(n),
        }
    }
}

/// Mutable visitor pattern for AST transformation
pub trait NodeVisitorMut {
    type Output;
    type Error;

    fn visit_scalar_mut(&mut self, node: &mut ScalarNode) -> Result<Self::Output, Self::Error>;
    fn visit_sequence_mut(&mut self, node: &mut SequenceNode) -> Result<Self::Output, Self::Error>;
    fn visit_mapping_mut(&mut self, node: &mut MappingNode) -> Result<Self::Output, Self::Error>;
    fn visit_anchor_mut(&mut self, node: &mut AnchorNode) -> Result<Self::Output, Self::Error>;
    fn visit_alias_mut(&mut self, node: &mut AliasNode) -> Result<Self::Output, Self::Error>;
    fn visit_tagged_mut(&mut self, node: &mut TaggedNode) -> Result<Self::Output, Self::Error>;
    fn visit_null_mut(&mut self, node: &mut NullNode) -> Result<Self::Output, Self::Error>;

    /// Visit a node by its kind.
    fn visit_node_mut(&mut self, node: &mut Node) -> Result<Self::Output, Self::Error> {
        match node {
            Node::Scalar(n) => self.visit_scalar_mut(n),
            Node::Sequence(n) => self.visit_sequence_mut(n),
            Node::Mapping(n) => self.visit_mapping_mut(n),
            Node::Anchor(n) => self.visit_anchor_mut(n),
            Node::Alias(n) => self.visit_alias_mut(n),
            Node::Tagged(n) => self.visit_tagged_mut(n),
            Node::Null(n) => self.visit_null_mut(n),
        }
    }
}

} // verus!
