//! Indentation tracking for block structure: a stack of strictly increasing indentation
//! levels, line indentation detection, and the checks made against the stack.
use vstd::prelude::*;
use crate::error::{Marker, ScanError};
use crate::scanner::state::{ScannerState, marker_ahead, window_after_peek};
use crate::text::{push_str, push_decimal, decimal};
use crate::lexer::scanner::{run_end, lemma_run_end, lemma_run_end_unique};
use crate::scanner::directives::blanks_end;

verus! {

/// Single indentation level record
#[derive(Debug, Clone, Copy)]
struct IndentLevel {
    /// Column position of this indentation level
    column: i32,
    /// Type of block at this level
    block_type: BlockType,
    /// Whether simple keys are allowed at this level
    simple_key_allowed: bool,
}

/// Types of YAML block structures
#[derive(Debug, Clone, Copy, PartialEq, Eq, Structural)]
pub enum BlockType {
    /// Block sequence (- items)
    Sequence,
    /// Block mapping (key: value)
    Mapping,
    /// Root document level
    Root,
    /// Plain scalar continuation
    Scalar,
}

/// The deepest nesting the tracker accepts.
pub const MAX_DEPTH: usize = 128;

/// Indentation context for block structure
#[derive(Debug, Clone)]
pub struct IndentationTracker {
    /// Stack of indentation levels
    levels: Vec<IndentLevel>,
    /// Current base indentation
    current_base: i32,
    /// Minimum allowed indentation
    min_indent: i32,
}

impl IndentationTracker {
    /// The columns of the open levels, outermost first.
    pub closed spec fn columns(&self) -> Seq<i32> {
        self.levels@.map_values(|l: IndentLevel| l.column)
    }

    /// The block types of the open levels, outermost first.
    pub closed spec fn block_types(&self) -> Seq<BlockType> {
        self.levels@.map_values(|l: IndentLevel| l.block_type)
    }

    /// The simple-key flags of the open levels, outermost first.
    pub closed spec fn key_flags(&self) -> Seq<bool> {
        self.levels@.map_values(|l: IndentLevel| l.simple_key_allowed)
    }

    /// The current indentation: the innermost level's column, or -1 at the root.
    pub closed spec fn base(&self) -> i32 {
        self.current_base
    }

    /// The levels are strictly increasing columns from 0 up, at most `MAX_DEPTH` of them,
    /// and the current indentation is the innermost one.
    pub open spec fn wf(&self) -> bool {
        &&& self.columns().len() == self.block_types().len()
        &&& self.columns().len() == self.key_flags().len()
        &&& self.columns().len() <= MAX_DEPTH
        &&& forall|i: int, j: int| 0 <= i < j < self.columns().len() ==> self.columns()[i] < self.columns()[j]
        &&& forall|i: int| 0 <= i < self.columns().len() ==> self.columns()[i] >= 0
        &&& self.base() as int == (if self.columns().len() == 0 { -1int } else { self.columns().last() as int })
    }

    /// Create new indentation tracker
    pub fn new() -> (t: Self)
        ensures
            t.wf(),
            t.columns().len() == 0,
            t.base() == -1,
    {
        let t = Self { levels: Vec::new(), current_base: -1, min_indent: 0 };
        assert(t.columns() =~= Seq::<i32>::empty());
        assert(t.block_types() =~= Seq::<BlockType>::empty());
        assert(t.key_flags() =~= Seq::<bool>::empty());
        t
    }

    /// Reset tracker for new document
    pub fn reset(&mut self)
        ensures
            final(self).wf(),
            final(self).columns().len() == 0,
            final(self).base() == -1,
    {
        self.levels.clear();
        self.current_base = -1;
        self.min_indent = 0;
        assert(self.columns() =~= Seq::<i32>::empty());
        assert(self.block_types() =~= Seq::<BlockType>::empty());
        assert(self.key_flags() =~= Seq::<bool>::empty());
    }

    /// Get current indentation level
    pub fn current_level(&self) -> (c: i32)
        ensures
            c == self.base(),
    {
        self.current_base
    }

    /// Check if at root level
    pub fn at_root_level(&self) -> (b: bool)
        ensures
            b == (self.columns().len() == 0),
    {
        self.levels.len() == 0
    }

    /// Get current block type: the innermost level's, `Root` when none is open
    pub fn current_block_type(&self) -> (t: BlockType)
        requires
            self.wf(),
        ensures
            t == (if self.block_types().len() == 0 { BlockType::Root } else { self.block_types().last() }),
    {
        let n = self.levels.len();
        if n == 0 {
            BlockType::Root
        } else {
            self.levels[n - 1].block_type
        }
    }

    /// Push new indentation level: it must be deeper than the current one, and the stack
    /// may hold at most `MAX_DEPTH` levels.
    pub fn push_level(&mut self, column: i32, block_type: BlockType) -> (r: Result<(), ScanError>)
        requires
            old(self).wf(),
        ensures
            final(self).wf(),
            r is Ok <==> column > old(self).base() && old(self).columns().len() < MAX_DEPTH,
            r is Ok ==> final(self).columns() == old(self).columns().push(column)
                && final(self).block_types() == old(self).block_types().push(block_type)
                && final(self).key_flags() == old(self).key_flags().push(true)
                && final(self).base() == column,
            r is Err ==> *final(self) == *old(self),
            r matches Err(e) ==> e.mark == (Marker { index: 0, line: 1, col: column as usize }) && e.info@ == (
                if column <= old(self).base() { "indentation must increase for nested blocks"@ }
                else { "maximum nesting depth exceeded (128 levels)"@ }),
    {
        if column <= self.current_base {
            return Err(ScanError::new(Marker::at(0, 1, column as usize), "indentation must increase for nested blocks"));
        }
        if self.levels.len() >= MAX_DEPTH {
            return Err(ScanError::new(Marker::at(0, 1, column as usize), "maximum nesting depth exceeded (128 levels)"));
        }
        let ghost old_levels = self.levels@;
        self.levels.push(IndentLevel { column, block_type, simple_key_allowed: true });
        self.current_base = column;
        proof {
            assert(self.columns() =~= old(self).columns().push(column));
            assert(self.block_types() =~= old(self).block_types().push(block_type));
            assert(self.key_flags() =~= old(self).key_flags().push(true));
        }
        Ok(())
    }

    /// Pop indentation levels deeper than `target_column`; the popped block types are
    /// returned innermost first.
    pub fn pop_to_level(&mut self, target_column: i32) -> (popped: Vec<BlockType>)
        requires
            old(self).wf(),
        ensures
            final(self).wf(),
            ({
                let k = kept_levels(old(self).columns(), target_column);
                &&& final(self).columns() == old(self).columns().take(k)
                &&& final(self).block_types() == old(self).block_types().take(k)
                &&& final(self).key_flags() == old(self).key_flags().take(k)
                &&& popped@ == old(self).block_types().skip(k).reverse()
            }),
    {
        let mut popped: Vec<BlockType> = Vec::new();
        let ghost k = kept_levels(old(self).columns(), target_column);
        proof { lemma_kept_levels(old(self).columns(), target_column); }
        while self.levels.len() > 0 && self.levels[self.levels.len() - 1].column > target_column
            invariant
                old(self).wf(),
                k == kept_levels(old(self).columns(), target_column),
                0 <= k <= self.levels@.len() <= old(self).columns().len(),
                forall|i: int| 0 <= i < k ==> old(self).columns()[i] <= target_column,
                forall|i: int| k <= i < old(self).columns().len() ==> old(self).columns()[i] > target_column,
                self.levels@ == old(self).levels@.take(self.levels@.len() as int),
                popped@ == old(self).block_types().skip(self.levels@.len() as int).reverse(),
            decreases self.levels@.len(),
        {
            let n = self.levels.len();
            let ghost before = popped@;
            proof {
                assert(self.levels@[n - 1] == old(self).levels@[n - 1]);
                assert(old(self).columns()[n - 1] > target_column);
            }
            let level = self.levels.pop().unwrap();
            popped.push(level.block_type);
            proof {
                assert(self.levels@ =~= old(self).levels@.take((n - 1) as int));
                let bt = old(self).block_types();
                assert(bt.skip((n - 1) as int) =~= seq![bt[(n - 1) as int]] + bt.skip(n as int));
                assert(bt.skip((n - 1) as int).reverse() =~= bt.skip(n as int).reverse().push(bt[(n - 1) as int]));
                assert(old(self).levels@[(n - 1) as int].block_type == bt[(n - 1) as int]);
            }
        }
        let n = self.levels.len();
        self.current_base = if n == 0 { -1 } else { self.levels[n - 1].column };
        proof {
            if self.levels@.len() > k {
                assert(old(self).columns()[self.levels@.len() - 1] > target_column);
                assert(self.levels@[self.levels@.len() - 1].column == old(self).columns()[self.levels@.len() - 1]);
            }
            assert(self.levels@.len() == k);
            assert(self.columns() =~= old(self).columns().take(k));
            assert(self.block_types() =~= old(self).block_types().take(k));
            assert(self.key_flags() =~= old(self).key_flags().take(k));
        }
        popped
    }

    /// Check if simple key is allowed at current level
    pub fn simple_key_allowed(&self) -> (b: bool)
        requires
            self.wf(),
        ensures
            b == (if self.key_flags().len() == 0 { true } else { self.key_flags().last() }),
    {
        let n = self.levels.len();
        if n == 0 {
            true
        } else {
            self.levels[n - 1].simple_key_allowed
        }
    }

    /// Set simple key allowed flag for current level
    pub fn set_simple_key_allowed(&mut self, allowed: bool)
        requires
            old(self).wf(),
        ensures
            final(self).wf(),
            final(self).columns() == old(self).columns(),
            final(self).block_types() == old(self).block_types(),
            final(self).key_flags() == (if old(self).key_flags().len() == 0 { old(self).key_flags() }
                else { old(self).key_flags().update(old(self).key_flags().len() - 1, allowed) }),
    {
        let n = self.levels.len();
        if n > 0 {
            let mut level = self.levels[n - 1];
            level.simple_key_allowed = allowed;
            self.levels.set(n - 1, level);
            proof {
                assert(self.columns() =~= old(self).columns());
                assert(self.block_types() =~= old(self).block_types());
                assert(self.key_flags() =~= old(self).key_flags().update(n - 1, allowed));
            }
        }
    }

    /// Check if column is valid for current context
    pub fn is_valid_column(&self, column: i32, block_type: BlockType) -> (b: bool)
        ensures
            b == match block_type {
                BlockType::Sequence | BlockType::Mapping => column > self.base(),
                BlockType::Scalar => column >= self.base(),
                BlockType::Root => column == 0,
            },
    {
        match block_type {
            BlockType::Sequence | BlockType::Mapping => column > self.current_base,
            BlockType::Scalar => column >= self.current_base,
            BlockType::Root => column == 0,
        }
    }

    /// Get depth of nesting
    pub fn depth(&self) -> (n: usize)
        ensures
            n == self.columns().len(),
    {
        self.levels.len()
    }

    /// Get minimum required indentation for new block
    pub fn min_indent_for_block(&self, block_type: BlockType) -> (m: i32)
        requires
            self.wf(),
            self.base() < i32::MAX,
        ensures
            m == match block_type {
                BlockType::Root => 0,
                BlockType::Sequence | BlockType::Mapping => self.base() + 1,
                BlockType::Scalar => self.base() as int,
            },
    {
        proof {
            if self.columns().len() > 0 {
                assert(self.columns().last() == self.columns()[self.columns().len() - 1]);
            }
        }
        match block_type {
            BlockType::Root => 0,
            BlockType::Sequence | BlockType::Mapping => self.current_base + 1,
            BlockType::Scalar => self.current_base,
        }
    }
}

/// How many of the (increasing) columns stay when popping to `target`: those at or below it.
pub open spec fn kept_levels(cols: Seq<i32>, target: i32) -> int
    decreases cols.len(),
{
    if cols.len() == 0 {
        0
    } else if cols.last() > target {
        kept_levels(cols.drop_last(), target)
    } else {
        cols.len() as int
    }
}

/// On increasing columns, the kept levels are exactly those at or below the target.
pub proof fn lemma_kept_levels(cols: Seq<i32>, target: i32)
    requires
        forall|i: int, j: int| 0 <= i < j < cols.len() ==> cols[i] < cols[j],
    ensures
        0 <= kept_levels(cols, target) <= cols.len(),
        forall|i: int| 0 <= i < kept_levels(cols, target) ==> cols[i] <= target,
        forall|i: int| kept_levels(cols, target) <= i < cols.len() ==> cols[i] > target,
    decreases cols.len(),
{
    if cols.len() > 0 {
        if cols.last() > target {
            lemma_kept_levels(cols.drop_last(), target);
            assert forall|i: int| 0 <= i < kept_levels(cols, target) implies cols[i] <= target by {
                assert(cols.drop_last()[i] == cols[i]);
            }
            assert forall|i: int| kept_levels(cols, target) <= i < cols.len() implies cols[i] > target by {
                if i < cols.len() - 1 {
                    assert(cols.drop_last()[i] == cols[i]);
                }
            }
        } else {
            assert forall|i: int| 0 <= i < cols.len() implies cols[i] <= target by {
                if i < cols.len() - 1 {
                    assert(cols[i] < cols[cols.len() - 1]);
                }
            }
        }
    }
}

/// A level pushed deeper than the current one is popped again, alone, by popping back to
/// the previous indentation: the tracker is as it was.
pub proof fn lemma_push_then_pop(before: IndentationTracker, pushed: IndentationTracker, after: IndentationTracker,
    column: i32, block_type: BlockType)
    requires
        before.wf(),
        pushed.wf(),
        pushed.columns() == before.columns().push(column),
        pushed.block_types() == before.block_types().push(block_type),
        pushed.key_flags() == before.key_flags().push(true),
        column > before.base(),
        ({
            let k = kept_levels(pushed.columns(), before.base());
            &&& after.columns() == pushed.columns().take(k)
            &&& after.block_types() == pushed.block_types().take(k)
            &&& after.key_flags() == pushed.key_flags().take(k)
        }),
    ensures
        after.columns() == before.columns(),
        after.block_types() == before.block_types(),
        after.key_flags() == before.key_flags(),
        kept_levels(pushed.columns(), before.base()) == before.columns().len(),
{
    let cols = pushed.columns();
    assert(cols.drop_last() =~= before.columns());
    assert(cols.last() == column);
    if before.columns().len() > 0 {
        assert(before.columns().last() == before.base());
        assert(kept_levels(before.columns(), before.base()) == before.columns().len());
    } else {
        assert(kept_levels(before.columns(), before.base()) == 0);
    }
    assert(kept_levels(cols, before.base()) == kept_levels(before.columns(), before.base()));
    assert(pushed.columns().take(before.columns().len() as int) =~= before.columns());
    assert(pushed.block_types().take(before.columns().len() as int) =~= before.block_types());
    assert(pushed.key_flags().take(before.columns().len() as int) =~= before.key_flags());
}

impl Default for IndentationTracker {
    fn default() -> (t: Self)
        ensures
            t.wf(),
            t.columns().len() == 0,
            t.base() == -1,
    {
        Self::new()
    }
}

/// The column reached after the whitespace `ws`: a space moves one column, a tab to the
/// next multiple of 8.
pub open spec fn ws_column(ws: Seq<char>) -> nat
    decreases ws.len(),
{
    if ws.len() == 0 {
        0
    } else {
        let c = ws_column(ws.drop_last());
        if ws.last() == '\t' { (c + 8 - c % 8) as nat } else { c + 1 }
    }
}

proof fn lemma_ws_column_bound(ws: Seq<char>)
    ensures
        ws_column(ws) <= 8 * ws.len(),
    decreases ws.len(),
{
    if ws.len() > 0 {
        lemma_ws_column_bound(ws.drop_last());
    }
}

/// Count leading whitespace at current position: the column reached and whether a tab
/// was among it.
pub fn count_leading_whitespace(state: &mut ScannerState) -> (r: Result<(usize, bool), ScanError>)
    requires
        old(state).wf(),
        8 * old(state).spec_source().len() <= usize::MAX,
    ensures
        final(state).read_on_from(old(state)),
        ({
            let ws = old(state).spec_source().subrange(old(state).spec_pos(), final(state).spec_pos());
            &&& forall|i: int| 0 <= i < ws.len() ==> (#[trigger] ws[i] == ' ' || ws[i] == '\t')
            &&& ws_column(ws) <= usize::MAX
            &&& r == Ok::<(usize, bool), ScanError>((ws_column(ws) as usize, ws.contains('\t')))
        }),
        final(state).spec_pos() < final(state).spec_source().len() ==>
            final(state).spec_source()[final(state).spec_pos()] != ' ' && final(state).spec_source()[final(state).spec_pos()] != '\t',
{
    let ghost s = old(state).spec_source();
    let ghost p0 = old(state).spec_pos();
    let mut count: usize = 0;
    let mut has_tabs = false;
    loop
        invariant
            s == old(state).spec_source(),
            p0 == old(state).spec_pos(),
            old(state).wf(),
            8 * s.len() <= usize::MAX,
            state.read_on_from(old(state)),
            forall|i: int| p0 <= i < state.spec_pos() ==> (#[trigger] s[i] == ' ' || s[i] == '\t'),
            count == ws_column(s.subrange(p0, state.spec_pos())),
            has_tabs == s.subrange(p0, state.spec_pos()).contains('\t'),
        ensures
            state.read_on_from(old(state)),
            forall|i: int| p0 <= i < state.spec_pos() ==> (#[trigger] s[i] == ' ' || s[i] == '\t'),
            count == ws_column(s.subrange(p0, state.spec_pos())),
            has_tabs == s.subrange(p0, state.spec_pos()).contains('\t'),
            state.spec_pos() < s.len() ==> s[state.spec_pos()] != ' ' && s[state.spec_pos()] != '\t',
        decreases s.len() - state.spec_pos(),
    {
        let ghost i = state.spec_pos();
        let ghost prev = s.subrange(p0, i);
        match state.peek_char() {
            Ok(' ') => {
                state.consume_char()?;
                proof {
                    crate::text::lemma_subrange_extend(s, p0, i);
                    lemma_ws_column_bound(s.subrange(p0, i + 1));
                    assert(s.subrange(p0, i + 1).drop_last() =~= prev);
                    crate::text::lemma_contains_push(prev, ' ', '\t');
                }
                count = count + 1;
            },
            Ok('\t') => {
                state.consume_char()?;
                proof {
                    crate::text::lemma_subrange_extend(s, p0, i);
                    lemma_ws_column_bound(s.subrange(p0, i + 1));
                    assert(s.subrange(p0, i + 1).drop_last() =~= prev);
                    crate::text::lemma_contains_push(prev, '\t', '\t');
                }
                count = count + 8 - count % 8;
                has_tabs = true;
            },
            _ => {
                break;
            },
        }
    }
    proof { lemma_ws_column_bound(s.subrange(p0, state.spec_pos())); }
    Ok((count, has_tabs))
}

/// Types of content that can follow indentation
#[derive(Debug, Clone, Copy, PartialEq, Eq, Structural)]
pub enum ContentType {
    /// Regular YAML content
    Content,
    /// Block entry indicator (-)
    BlockEntry,
    /// Comment line (#)
    Comment,
    /// Empty line
    EmptyLine,
    /// Document start marker (---)
    DocumentStart,
    /// Document end marker (...)
    DocumentEnd,
    /// End of file
    EndOfFile,
}

/// Information about line indentation
#[derive(Debug, Clone)]
pub struct LineIndentation {
    /// Column position after indentation
    pub column: usize,
    /// Whether tabs were used in indentation
    pub has_tabs: bool,
    /// Type of content following indentation
    pub content_type: ContentType,
    /// Position at start of line
    pub position: Marker,
}

/// What follows indentation at `p`.
pub open spec fn content_type_at(s: Seq<char>, p: int) -> ContentType {
    if p >= s.len() {
        ContentType::EndOfFile
    } else if s[p] == '\n' || s[p] == '\r' {
        ContentType::EmptyLine
    } else if s[p] == '#' {
        ContentType::Comment
    } else if s[p] == '-' {
        if marker_ahead(s, p, '-') {
            ContentType::DocumentStart
        } else if p + 1 >= s.len() || s[p + 1] == ' ' || s[p + 1] == '\t' || s[p + 1] == '\n' || s[p + 1] == '\r' {
            ContentType::BlockEntry
        } else {
            ContentType::Content
        }
    } else if s[p] == '.' {
        if marker_ahead(s, p, '.') { ContentType::DocumentEnd } else { ContentType::Content }
    } else {
        ContentType::Content
    }
}

/// Detect indentation level of current line
pub fn detect_line_indentation(state: &mut ScannerState) -> (r: Result<LineIndentation, ScanError>)
    requires
        old(state).wf(),
        8 * old(state).spec_source().len() <= usize::MAX,
    ensures
        final(state).read_on_from(old(state)),
        ({
            let s = old(state).spec_source();
            let ws = s.subrange(old(state).spec_pos(), final(state).spec_pos());
            &&& forall|i: int| 0 <= i < ws.len() ==> (#[trigger] ws[i] == ' ' || ws[i] == '\t')
            &&& (final(state).spec_pos() < s.len() ==> s[final(state).spec_pos()] != ' ' && s[final(state).spec_pos()] != '\t')
            &&& r matches Ok(li) && li.column == ws_column(ws) && li.has_tabs == ws.contains('\t')
                && li.position == old(state).spec_mark()
                && li.content_type == content_type_at(s, final(state).spec_pos())
        }),
{
    let start_mark = state.mark();
    let (spaces, has_tabs) = count_leading_whitespace(state)?;
    let content_type = match state.peek_char() {
        Err(_) => ContentType::EndOfFile,
        Ok(c) => {
            if c == '\n' || c == '\r' {
                ContentType::EmptyLine
            } else if c == '#' {
                ContentType::Comment
            } else if c == '-' {
                let ds = state.check_document_start()?;
                if ds {
                    ContentType::DocumentStart
                } else {
                    let be = state.check_block_entry()?;
                    if be { ContentType::BlockEntry } else { ContentType::Content }
                }
            } else if c == '.' {
                let de = state.check_document_end()?;
                if de { ContentType::DocumentEnd } else { ContentType::Content }
            } else {
                ContentType::Content
            }
        },
    };
    Ok(LineIndentation { column: spaces, has_tabs, content_type, position: start_mark })
}

/// Validate indentation consistency: a line indented with tabs after one without, or the
/// other way round, is an error.
pub fn validate_indentation_consistency(current: &LineIndentation, previous: &LineIndentation) -> (r: Result<(), ScanError>)
    ensures
        r is Ok <==> current.has_tabs == previous.has_tabs,
        r matches Err(e) ==> e.mark == current.position
            && e.info@ == "inconsistent use of tabs and spaces for indentation"@,
{
    if current.has_tabs == previous.has_tabs {
        return Ok(());
    }
    Err(ScanError::new(current.position, "inconsistent use of tabs and spaces for indentation"))
}

/// Calculate effective indentation considering tab stops: the counted columns as they are
pub fn effective_indentation(spaces: usize, has_tabs: bool, tab_width: usize) -> (n: usize)
    ensures
        n == spaces,
{
    spaces
}

/// The message for a line indented too little for the expected block.
pub open spec fn block_indent_message(t: BlockType, parent: i32) -> Seq<char> {
    match t {
        BlockType::Root => "root level content must start at column 0"@,
        BlockType::Sequence | BlockType::Mapping =>
            "block collections must be indented more than parent level ("@ + signed_decimal(parent as int) + ")"@,
        BlockType::Scalar =>
            "scalar content must be indented at least as much as parent level ("@ + signed_decimal(parent as int) + ")"@,
    }
}

/// The decimal rendering of an integer, with `-` before a negative one.
pub open spec fn signed_decimal(n: int) -> Seq<char> {
    if n < 0 { seq!['-'] + decimal((-n) as nat) } else { decimal(n as nat) }
}

/// Append the signed decimal rendering of `n`.
pub fn push_signed_decimal(s: &mut String, n: i32)
    ensures
        final(s)@ == old(s)@ + signed_decimal(n as int),
{
    if n < 0 {
        let ghost s0 = s@;
        crate::text::push_char(s, '-');
        let m: i64 = -(n as i64);
        push_decimal(s, m as usize);
        assert(s@ =~= s0 + signed_decimal(n as int));
    } else {
        push_decimal(s, n as usize);
    }
}

/// Check if indentation is valid for block context
pub fn validate_block_indentation(indentation: &LineIndentation, tracker: &IndentationTracker, expected_block_type: BlockType)
    -> (r: Result<(), ScanError>)
    requires
        tracker.wf(),
    ensures
        r is Ok <==> tracker.is_valid_column_spec(indentation.column as i32, expected_block_type),
        r matches Err(e) ==> e.mark == indentation.position
            && e.info@ == block_indent_message(expected_block_type, tracker.base()),
{
    let column = indentation.column as i32;
    match expected_block_type {
        BlockType::Root => {
            if column != 0 {
                return Err(ScanError::new(indentation.position, "root level content must start at column 0"));
            }
        },
        BlockType::Sequence | BlockType::Mapping => {
            if column <= tracker.current_level() {
                let mut msg = String::new();
                push_str(&mut msg, "block collections must be indented more than parent level (");
                push_signed_decimal(&mut msg, tracker.current_level());
                push_str(&mut msg, ")");
                return Err(ScanError::new(indentation.position, msg.as_str()));
            }
        },
        BlockType::Scalar => {
            if column < tracker.current_level() {
                let mut msg = String::new();
                push_str(&mut msg, "scalar content must be indented at least as much as parent level (");
                push_signed_decimal(&mut msg, tracker.current_level());
                push_str(&mut msg, ")");
                return Err(ScanError::new(indentation.position, msg.as_str()));
            }
        },
    }
    Ok(())
}

impl IndentationTracker {
    /// Whether `column` suits a block of type `t` under the current indentation.
    pub open spec fn is_valid_column_spec(&self, column: i32, t: BlockType) -> bool {
        match t {
            BlockType::Sequence | BlockType::Mapping => column > self.base(),
            BlockType::Scalar => column >= self.base(),
            BlockType::Root => column == 0,
        }
    }
}

/// Determine required block end tokens from indentation change: the levels deeper than
/// `current_column` close when the column is below the current indentation.
pub fn determine_block_ends(current_column: i32, tracker: &mut IndentationTracker) -> (ends: Vec<BlockType>)
    requires
        old(tracker).wf(),
    ensures
        final(tracker).wf(),
        current_column < old(tracker).base() ==> ({
            let k = kept_levels(old(tracker).columns(), current_column);
            &&& final(tracker).columns() == old(tracker).columns().take(k)
            &&& final(tracker).block_types() == old(tracker).block_types().take(k)
            &&& final(tracker).key_flags() == old(tracker).key_flags().take(k)
            &&& ends@ == old(tracker).block_types().skip(k).reverse()
        }),
        current_column >= old(tracker).base() ==> *final(tracker) == *old(tracker) && ends@.len() == 0,
{
    if current_column < tracker.current_level() {
        tracker.pop_to_level(current_column)
    } else {
        Vec::new()
    }
}

/// The end of a run of line breaks from `i`.
pub open spec fn breaks_end(s: Seq<char>, i: int) -> int {
    run_end(s, i, |c: char| c == '\n' || c == '\r')
}

/// Past the first line break from `i`, or the end.
pub open spec fn past_break(s: Seq<char>, i: int) -> int
    decreases s.len() - i,
{
    if i < 0 || i >= s.len() { i } else if s[i] == '\n' || s[i] == '\r' { i + 1 } else { past_break(s, i + 1) }
}

/// Past a line break the text goes on further along.
pub proof fn lemma_past_break(s: Seq<char>, i: int)
    requires
        0 <= i <= s.len(),
    ensures
        i <= past_break(s, i) <= s.len(),
        i < s.len() ==> i < past_break(s, i),
    decreases s.len() - i,
{
    if i < s.len() && !(s[i] == '\n' || s[i] == '\r') {
        lemma_past_break(s, i + 1);
    }
}

/// Where the next line with content starts past its indentation: empty lines and comment
/// lines from `i` are skipped; the end of the input when none is left.
pub open spec fn next_content(s: Seq<char>, i: int) -> int
    decreases s.len() - i,
{
    if i < 0 || i > s.len() {
        i
    } else {
        let j = blanks_end(s, i);
        proof { lemma_run_end(s, i, |c: char| c == ' ' || c == '\t'); }
        if j >= s.len() {
            j
        } else if s[j] == '\n' || s[j] == '\r' {
            proof { lemma_run_end(s, j + 1, |c: char| c == '\n' || c == '\r'); }
            next_content(s, breaks_end(s, j))
        } else if s[j] == '#' {
            proof { lemma_past_break(s, j); }
            next_content(s, past_break(s, j))
        } else {
            j
        }
    }
}

/// Skip empty lines and comments, returning indentation of next content line
pub fn skip_to_content_line(state: &mut ScannerState) -> (r: Result<Option<LineIndentation>, ScanError>)
    requires
        old(state).wf(),
        8 * old(state).spec_source().len() <= usize::MAX,
    ensures
        final(state).read_on_from(old(state)),
        r matches Ok(Some(li)) ==> li.content_type != ContentType::EmptyLine && li.content_type != ContentType::Comment
            && li.content_type != ContentType::EndOfFile
            && li.content_type == content_type_at(final(state).spec_source(), final(state).spec_pos()),
        r matches Ok(None) ==> final(state).spec_pos() == final(state).spec_source().len(),
        r is Ok,
        final(state).spec_pos() == next_content(old(state).spec_source(), old(state).spec_pos()),
        r matches Ok(None) <==> final(state).spec_pos() == final(state).spec_source().len(),
{
    let ghost s = old(state).spec_source();
    loop
        invariant
            old(state).wf(),
            8 * old(state).spec_source().len() <= usize::MAX,
            state.read_on_from(old(state)),
            s == old(state).spec_source(),
            next_content(s, state.spec_pos()) == next_content(s, old(state).spec_pos()),
        decreases state.spec_source().len() - state.spec_pos(),
    {
        let ghost p = state.spec_pos();
        let indentation = detect_line_indentation(state)?;
        let ghost j = state.spec_pos();
        proof {
            assert forall|k: int| p <= k < j implies (#[trigger] s[k] == ' ' || s[k] == '\t') by {
                assert(s.subrange(p, j)[k - p] == s[k]);
            }
            lemma_run_end_unique(s, p, j, |c: char| c == ' ' || c == '\t');
        }
        match indentation.content_type {
            ContentType::EmptyLine => {
                loop
                    invariant
                        old(state).wf(),
                        state.read_on_from(old(state)),
                        state.spec_pos() >= p,
                        state.spec_pos() > p || (state.spec_pos() < state.spec_source().len()
                            && (state.spec_source()[state.spec_pos()] == '\n' || state.spec_source()[state.spec_pos()] == '\r')),
                        s == old(state).spec_source(),
                        breaks_end(s, state.spec_pos()) == breaks_end(s, j),
                    ensures
                        state.read_on_from(old(state)),
                        state.spec_pos() > p,
                        state.spec_pos() == breaks_end(s, j),
                    decreases state.spec_source().len() - state.spec_pos(),
                {
                    match state.peek_char() {
                        Ok('\n') | Ok('\r') => {
                            state.consume_char()?;
                        },
                        _ => {
                            break;
                        },
                    }
                }
            },
            ContentType::Comment => {
                loop
                    invariant_except_break
                        past_break(s, state.spec_pos()) == past_break(s, j),
                    invariant
                        old(state).wf(),
                        state.read_on_from(old(state)),
                        state.spec_pos() >= p,
                        state.spec_pos() > p || (state.spec_pos() < state.spec_source().len()
                            && state.spec_source()[state.spec_pos()] == '#'),
                        s == old(state).spec_source(),
                    ensures
                        state.read_on_from(old(state)),
                        state.spec_pos() > p,
                        state.spec_pos() == past_break(s, j),
                    decreases state.spec_source().len() - state.spec_pos(),
                {
                    match state.peek_char() {
                        Ok(ch) => {
                            state.consume_char()?;
                            if ch == '\n' || ch == '\r' {
                                break;
                            }
                        },
                        Err(_) => {
                            break;
                        },
                    }
                }
            },
            ContentType::EndOfFile => {
                return Ok(None);
            },
            _ => {
                return Ok(Some(indentation));
            },
        }
    }
}

} // verus!
