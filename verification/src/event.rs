//! The event model: a closed set of tagged variants covering every renderable
//! Markdown construct, decoupled from any particular parser's node types.
//!
//! A well-formed event sequence pairs every `Start(Tag)` with exactly one
//! later `End(TagEnd)` of the corresponding closing kind, properly nested.

use vstd::prelude::*;

verus! {

/// Heading depth, one through six.
#[derive(Debug, Clone, Copy, PartialEq, Eq, Hash, Structural)]
pub enum HeadingLevel {
    H1,
    H2,
    H3,
    H4,
    H5,
    H6,
}

impl HeadingLevel {
    /// The numeric depth of this level.
    pub open spec fn spec_number(self) -> u8 {
        match self {
            HeadingLevel::H1 => 1,
            HeadingLevel::H2 => 2,
            HeadingLevel::H3 => 3,
            HeadingLevel::H4 => 4,
            HeadingLevel::H5 => 5,
            HeadingLevel::H6 => 6,
        }
    }

    /// Returns the numeric depth, `1` for `H1` through `6` for `H6`.
    pub fn number(self) -> (n: u8)
        ensures
            n == self.spec_number(),
    {
        match self {
            HeadingLevel::H1 => 1,
            HeadingLevel::H2 => 2,
            HeadingLevel::H3 => 3,
            HeadingLevel::H4 => 4,
            HeadingLevel::H5 => 5,
            HeadingLevel::H6 => 6,
        }
    }

    /// The level for a numeric depth: `Some` exactly for depths one
    /// through six.
    pub open spec fn spec_from_depth(depth: usize) -> Option<HeadingLevel> {
        if depth == 1 {
            Some(HeadingLevel::H1)
        } else if depth == 2 {
            Some(HeadingLevel::H2)
        } else if depth == 3 {
            Some(HeadingLevel::H3)
        } else if depth == 4 {
            Some(HeadingLevel::H4)
        } else if depth == 5 {
            Some(HeadingLevel::H5)
        } else if depth == 6 {
            Some(HeadingLevel::H6)
        } else {
            None
        }
    }

    /// Converts a numeric depth to a level; depths outside one through six
    /// have no level.
    pub fn from_depth(depth: usize) -> (r: Option<HeadingLevel>)
        ensures
            r == HeadingLevel::spec_from_depth(depth),
    {
        if depth == 1 {
            Some(HeadingLevel::H1)
        } else if depth == 2 {
            Some(HeadingLevel::H2)
        } else if depth == 3 {
            Some(HeadingLevel::H3)
        } else if depth == 4 {
            Some(HeadingLevel::H4)
        } else if depth == 5 {
            Some(HeadingLevel::H5)
        } else if depth == 6 {
            Some(HeadingLevel::H6)
        } else {
            None
        }
    }
}

/// Code block metadata: indented, or fenced with a language string.
#[derive(Debug, Clone, PartialEq)]
pub enum CodeBlockKind {
    Indented,
    Fenced(String),
}

/// Table column alignment, one per column, order-significant.
#[derive(Debug, Clone, Copy, PartialEq, Eq, Structural)]
pub enum Alignment {
    Unset,
    Left,
    Center,
    Right,
}

/// Link kinds used throughout the pipeline.
#[derive(Debug, Clone, Copy, PartialEq, Eq, Structural)]
pub enum LinkType {
    Inline,
    Reference,
    ReferenceUnknown,
    Collapsed,
    CollapsedUnknown,
    Shortcut,
    ShortcutUnknown,
    Autolink,
    Email,
}

/// Tags for container constructs: the opening half of a paired element.
#[derive(Debug, Clone, PartialEq)]
pub enum Tag {
    Paragraph,
    Heading {
        level: HeadingLevel,
        id: Option<String>,
        classes: Vec<String>,
        attrs: Vec<(String, Option<String>)>,
    },
    BlockQuote,
    CodeBlock(CodeBlockKind),
    List(Option<u64>),
    Item,
    FootnoteDefinition(String),
    Table(Vec<Alignment>),
    TableHead,
    TableRow,
    TableCell,
    Emphasis,
    Strong,
    Strikethrough,
    Link {
        link_type: LinkType,
        dest_url: String,
        title: String,
        id: String,
    },
    Image {
        link_type: LinkType,
        dest_url: String,
        title: String,
        id: String,
    },
}

/// Tag terminators: the closing half of a paired element.
#[derive(Debug, Clone, Copy, PartialEq, Eq, Structural)]
pub enum TagEnd {
    Paragraph,
    Heading(HeadingLevel),
    BlockQuote,
    CodeBlock,
    List(bool),
    Item,
    FootnoteDefinition,
    Table,
    TableHead,
    TableRow,
    TableCell,
    Emphasis,
    Strong,
    Strikethrough,
    Link,
    Image,
}

impl Tag {
    /// The closing counterpart of this tag: a pure, total function; each tag
    /// maps to exactly one terminator kind.
    pub open spec fn spec_to_end(&self) -> TagEnd {
        match self {
            Tag::Paragraph => TagEnd::Paragraph,
            Tag::Heading { level, .. } => TagEnd::Heading(*level),
            Tag::BlockQuote => TagEnd::BlockQuote,
            Tag::CodeBlock(_) => TagEnd::CodeBlock,
            Tag::List(start) => TagEnd::List(start is Some),
            Tag::Item => TagEnd::Item,
            Tag::FootnoteDefinition(_) => TagEnd::FootnoteDefinition,
            Tag::Table(_) => TagEnd::Table,
            Tag::TableHead => TagEnd::TableHead,
            Tag::TableRow => TagEnd::TableRow,
            Tag::TableCell => TagEnd::TableCell,
            Tag::Emphasis => TagEnd::Emphasis,
            Tag::Strong => TagEnd::Strong,
            Tag::Strikethrough => TagEnd::Strikethrough,
            Tag::Link { .. } => TagEnd::Link,
            Tag::Image { .. } => TagEnd::Image,
        }
    }

    /// Converts a tag into its closing counterpart.
    pub fn to_end(&self) -> (r: TagEnd)
        ensures
            r == self.spec_to_end(),
    {
        match self {
            Tag::Paragraph => TagEnd::Paragraph,
            Tag::Heading { level, .. } => TagEnd::Heading(*level),
            Tag::BlockQuote => TagEnd::BlockQuote,
            Tag::CodeBlock(_) => TagEnd::CodeBlock,
            Tag::List(start) => TagEnd::List(start.is_some()),
            Tag::Item => TagEnd::Item,
            Tag::FootnoteDefinition(_) => TagEnd::FootnoteDefinition,
            Tag::Table(_) => TagEnd::Table,
            Tag::TableHead => TagEnd::TableHead,
            Tag::TableRow => TagEnd::TableRow,
            Tag::TableCell => TagEnd::TableCell,
            Tag::Emphasis => TagEnd::Emphasis,
            Tag::Strong => TagEnd::Strong,
            Tag::Strikethrough => TagEnd::Strikethrough,
            Tag::Link { .. } => TagEnd::Link,
            Tag::Image { .. } => TagEnd::Image,
        }
    }
}

/// The mathematical model of a code block kind: its language as a character
/// sequence.
#[verifier::ext_equal]
pub ghost enum CodeBlockKindModel {
    Indented,
    Fenced(Seq<char>),
}

impl CodeBlockKind {
    /// The model of this code block kind.
    pub open spec fn model(&self) -> CodeBlockKindModel {
        match self {
            CodeBlockKind::Indented => CodeBlockKindModel::Indented,
            CodeBlockKind::Fenced(lang) => CodeBlockKindModel::Fenced(lang@),
        }
    }
}

/// The mathematical model of a tag: strings become character sequences.
#[verifier::ext_equal]
pub ghost enum TagModel {
    Paragraph,
    Heading {
        level: HeadingLevel,
        id: Option<Seq<char>>,
        classes: Seq<Seq<char>>,
        attrs: Seq<(Seq<char>, Option<Seq<char>>)>,
    },
    BlockQuote,
    CodeBlock(CodeBlockKindModel),
    List(Option<u64>),
    Item,
    FootnoteDefinition(Seq<char>),
    Table(Seq<Alignment>),
    TableHead,
    TableRow,
    TableCell,
    Emphasis,
    Strong,
    Strikethrough,
    Link { link_type: LinkType, dest_url: Seq<char>, title: Seq<char>, id: Seq<char> },
    Image { link_type: LinkType, dest_url: Seq<char>, title: Seq<char>, id: Seq<char> },
}

impl TagModel {
    /// The closing counterpart of a modelled tag.
    pub open spec fn end(self) -> TagEnd {
        match self {
            TagModel::Paragraph => TagEnd::Paragraph,
            TagModel::Heading { level, .. } => TagEnd::Heading(level),
            TagModel::BlockQuote => TagEnd::BlockQuote,
            TagModel::CodeBlock(_) => TagEnd::CodeBlock,
            TagModel::List(start) => TagEnd::List(start is Some),
            TagModel::Item => TagEnd::Item,
            TagModel::FootnoteDefinition(_) => TagEnd::FootnoteDefinition,
            TagModel::Table(_) => TagEnd::Table,
            TagModel::TableHead => TagEnd::TableHead,
            TagModel::TableRow => TagEnd::TableRow,
            TagModel::TableCell => TagEnd::TableCell,
            TagModel::Emphasis => TagEnd::Emphasis,
            TagModel::Strong => TagEnd::Strong,
            TagModel::Strikethrough => TagEnd::Strikethrough,
            TagModel::Link { .. } => TagEnd::Link,
            TagModel::Image { .. } => TagEnd::Image,
        }
    }
}

impl Tag {
    /// The model of this tag.
    pub open spec fn model(&self) -> TagModel {
        match self {
            Tag::Paragraph => TagModel::Paragraph,
            Tag::Heading { level, id, classes, attrs } => TagModel::Heading {
                level: *level,
                id: match id {
                    Some(s) => Some(s@),
                    None => None,
                },
                classes: Seq::new(classes@.len(), |i: int| classes@[i]@),
                attrs: Seq::new(
                    attrs@.len(),
                    |i: int|
                        (
                            attrs@[i].0@,
                            match attrs@[i].1 {
                                Some(v) => Some(v@),
                                None => None,
                            },
                        ),
                ),
            },
            Tag::BlockQuote => TagModel::BlockQuote,
            Tag::CodeBlock(kind) => TagModel::CodeBlock(kind.model()),
            Tag::List(start) => TagModel::List(*start),
            Tag::Item => TagModel::Item,
            Tag::FootnoteDefinition(label) => TagModel::FootnoteDefinition(label@),
            Tag::Table(aligns) => TagModel::Table(aligns@),
            Tag::TableHead => TagModel::TableHead,
            Tag::TableRow => TagModel::TableRow,
            Tag::TableCell => TagModel::TableCell,
            Tag::Emphasis => TagModel::Emphasis,
            Tag::Strong => TagModel::Strong,
            Tag::Strikethrough => TagModel::Strikethrough,
            Tag::Link { link_type, dest_url, title, id } => TagModel::Link {
                link_type: *link_type,
                dest_url: dest_url@,
                title: title@,
                id: id@,
            },
            Tag::Image { link_type, dest_url, title, id } => TagModel::Image {
                link_type: *link_type,
                dest_url: dest_url@,
                title: title@,
                id: id@,
            },
        }
    }
}

/// The mathematical model of an event: strings become character sequences.
#[verifier::ext_equal]
pub ghost enum EventModel {
    Start(TagModel),
    End(TagEnd),
    Text(Seq<char>),
    Code(Seq<char>),
    Html(Seq<char>),
    InlineHtml(Seq<char>),
    InlineMath(Seq<char>),
    DisplayMath(Seq<char>),
    FootnoteReference(Seq<char>),
    TaskListMarker(bool),
    Rule,
    HardBreak,
    SoftBreak,
}

/// A Markdown event: one flat, typed unit of renderable content or structure.
#[derive(Debug, Clone, PartialEq)]
pub enum Event {
    /// Start of a tagged element.
    Start(Tag),
    /// End of a tagged element.
    End(TagEnd),
    /// Text node.
    Text(String),
    /// Inline code span.
    Code(String),
    /// HTML chunk (block-level), passed through unescaped.
    Html(String),
    /// Inline HTML snippet, passed through unescaped.
    InlineHtml(String),
    /// Inline math.
    InlineMath(String),
    /// Display math.
    DisplayMath(String),
    /// Footnote reference.
    FootnoteReference(String),
    /// Task list checkbox marker.
    TaskListMarker(bool),
    /// Horizontal rule.
    Rule,
    /// Hard line break.
    HardBreak,
    /// Soft line break.
    SoftBreak,
}

/// The models of a sequence of events, in order.
pub open spec fn models_of(s: Seq<Event>) -> Seq<EventModel> {
    Seq::new(s.len(), |i: int| s[i].model())
}

impl Event {
    /// The model of this event.
    pub open spec fn model(&self) -> EventModel {
        match self {
            Event::Start(tag) => EventModel::Start(tag.model()),
            Event::End(end) => EventModel::End(*end),
            Event::Text(s) => EventModel::Text(s@),
            Event::Code(s) => EventModel::Code(s@),
            Event::Html(s) => EventModel::Html(s@),
            Event::InlineHtml(s) => EventModel::InlineHtml(s@),
            Event::InlineMath(s) => EventModel::InlineMath(s@),
            Event::DisplayMath(s) => EventModel::DisplayMath(s@),
            Event::FootnoteReference(s) => EventModel::FootnoteReference(s@),
            Event::TaskListMarker(done) => EventModel::TaskListMarker(*done),
            Event::Rule => EventModel::Rule,
            Event::HardBreak => EventModel::HardBreak,
            Event::SoftBreak => EventModel::SoftBreak,
        }
    }
}

} // verus!
