//! The parse tree consumed by the adapter, and the reference semantics of its
//! event stream.
//!
//! `MdNode` is this library's own tree of typed nodes, holding as plain
//! values everything the pipeline reads. `node_events` gives the canonical
//! event sequence of a node: pre-order, with matched start and end events,
//! paragraphs suppressed inside tight list items. The adapter is proved to
//! yield exactly this sequence, one event per pull.

use vstd::prelude::*;

use crate::event::Alignment;
use crate::event::EventModel;
use crate::event::HeadingLevel;
use crate::event::LinkType;
use crate::event::TagEnd;
use crate::event::TagModel;
use crate::event::CodeBlockKindModel;
use crate::escape::spec_escape_text;
use crate::slug::spec_heading_slug;

verus! {

/// One node of the parse tree.
pub enum MdNode {
    Root { children: Vec<MdNode> },
    Paragraph { children: Vec<MdNode> },
    Heading { depth: u8, children: Vec<MdNode> },
    Blockquote { children: Vec<MdNode> },
    List { ordered: bool, start: Option<u32>, children: Vec<MdNode> },
    ListItem { checked: Option<bool>, spread: bool, children: Vec<MdNode> },
    FootnoteDefinition { identifier: String, children: Vec<MdNode> },
    Code { lang: Option<String>, value: String },
    Text { value: String },
    Emphasis { children: Vec<MdNode> },
    Strong { children: Vec<MdNode> },
    Delete { children: Vec<MdNode> },
    InlineCode { value: String },
    InlineMath { value: String },
    Math { value: String },
    Break,
    ThematicBreak,
    Link { url: String, title: Option<String>, children: Vec<MdNode> },
    LinkReference { identifier: String, children: Vec<MdNode> },
    Image { url: String, title: Option<String>, alt: String },
    ImageReference { identifier: String, alt: String },
    Html { value: String },
    Table { align: Vec<Alignment>, children: Vec<MdNode> },
    TableRow { children: Vec<MdNode> },
    TableCell { children: Vec<MdNode> },
    Toml { value: String },
    Yaml { value: String },
    MdxjsEsm { value: String },
    FootnoteReference { identifier: String },
    /// A node kind with no rendering mapping: its children are still visited
    /// transparently, so their renderable content is preserved.
    Unsupported { children: Vec<MdNode> },
}

/// The size of a node, used as a termination measure: every node weighs four
/// plus the weight of its children.
pub open spec fn node_size(n: MdNode) -> nat
    decreases n,
{
    match n {
        MdNode::Root { children } => 4 + children_size(children@),
        MdNode::Paragraph { children } => 4 + children_size(children@),
        MdNode::Heading { children, .. } => 4 + children_size(children@),
        MdNode::Blockquote { children } => 4 + children_size(children@),
        MdNode::List { children, .. } => 4 + children_size(children@),
        MdNode::ListItem { children, .. } => 4 + children_size(children@),
        MdNode::FootnoteDefinition { children, .. } => 4 + children_size(children@),
        MdNode::Emphasis { children } => 4 + children_size(children@),
        MdNode::Strong { children } => 4 + children_size(children@),
        MdNode::Delete { children } => 4 + children_size(children@),
        MdNode::Link { children, .. } => 4 + children_size(children@),
        MdNode::LinkReference { children, .. } => 4 + children_size(children@),
        MdNode::Table { children, .. } => 4 + children_size(children@),
        MdNode::TableRow { children } => 4 + children_size(children@),
        MdNode::TableCell { children } => 4 + children_size(children@),
        MdNode::Unsupported { children } => 4 + children_size(children@),
        _ => 4,
    }
}

/// The summed size of a sequence of nodes.
pub open spec fn children_size(s: Seq<MdNode>) -> nat
    decreases s,
{
    if s.len() == 0 {
        0
    } else {
        node_size(s[0]) + children_size(s.drop_first())
    }
}

/// The sum over a suffix equals the head plus the sum over the rest.
pub proof fn lemma_children_size_unfold(s: Seq<MdNode>)
    requires
        s.len() > 0,
    ensures
        children_size(s) == node_size(s[0]) + children_size(s.drop_first()),
{
}

/// The visible text of one node, as collected for heading slugs: text and
/// inline code contribute their value; code blocks and nested headings
/// contribute nothing; containers are descended into.
pub open spec fn node_text(n: MdNode) -> Seq<char>
    decreases n,
{
    match n {
        MdNode::Text { value } => value@,
        MdNode::InlineCode { value } => value@,
        MdNode::Root { children } => nodes_text(children@),
        MdNode::Paragraph { children } => nodes_text(children@),
        MdNode::Blockquote { children } => nodes_text(children@),
        MdNode::List { children, .. } => nodes_text(children@),
        MdNode::ListItem { children, .. } => nodes_text(children@),
        MdNode::FootnoteDefinition { children, .. } => nodes_text(children@),
        MdNode::Emphasis { children } => nodes_text(children@),
        MdNode::Strong { children } => nodes_text(children@),
        MdNode::Delete { children } => nodes_text(children@),
        MdNode::Link { children, .. } => nodes_text(children@),
        MdNode::LinkReference { children, .. } => nodes_text(children@),
        MdNode::Table { children, .. } => nodes_text(children@),
        MdNode::TableRow { children } => nodes_text(children@),
        MdNode::TableCell { children } => nodes_text(children@),
        MdNode::Unsupported { children } => nodes_text(children@),
        _ => Seq::empty(),
    }
}

/// The concatenated visible text of a sequence of nodes.
pub open spec fn nodes_text(s: Seq<MdNode>) -> Seq<char>
    decreases s,
{
    if s.len() == 0 {
        Seq::empty()
    } else {
        node_text(s[0]) + nodes_text(s.drop_first())
    }
}

/// Appends the visible text of `n` to `out`.
pub(crate) fn collect_node_text(n: &MdNode, out: &mut String)
    ensures
        final(out)@ == old(out)@ + node_text(*n),
    decreases node_size(*n), 0nat,
{
    match n {
        MdNode::Text { value } => out.append(value.as_str()),
        MdNode::InlineCode { value } => out.append(value.as_str()),
        MdNode::Root { children } => collect_children_text(children, out),
        MdNode::Paragraph { children } => collect_children_text(children, out),
        MdNode::Blockquote { children } => collect_children_text(children, out),
        MdNode::List { children, .. } => collect_children_text(children, out),
        MdNode::ListItem { children, .. } => collect_children_text(children, out),
        MdNode::FootnoteDefinition { children, .. } => collect_children_text(children, out),
        MdNode::Emphasis { children } => collect_children_text(children, out),
        MdNode::Strong { children } => collect_children_text(children, out),
        MdNode::Delete { children } => collect_children_text(children, out),
        MdNode::Link { children, .. } => collect_children_text(children, out),
        MdNode::LinkReference { children, .. } => collect_children_text(children, out),
        MdNode::Table { children, .. } => collect_children_text(children, out),
        MdNode::TableRow { children } => collect_children_text(children, out),
        MdNode::TableCell { children } => collect_children_text(children, out),
        MdNode::Unsupported { children } => collect_children_text(children, out),
        _ => {
            proof {
                assert(old(out)@ + node_text(*n) =~= old(out)@);
            }
        },
    }
}

/// Appends the visible text of a node list to `out`.
fn collect_children_text(children: &Vec<MdNode>, out: &mut String)
    ensures
        final(out)@ == old(out)@ + nodes_text(children@),
    decreases children_size(children@), children@.len() + 2nat,
{
    proof {
        assert(children@.skip(0) =~= children@);
    }
    collect_nodes_text(children, 0, out);
}

/// Appends the visible text of `nodes[i..]` to `out`.
fn collect_nodes_text(nodes: &Vec<MdNode>, i: usize, out: &mut String)
    requires
        i <= nodes@.len(),
    ensures
        final(out)@ == old(out)@ + nodes_text(nodes@.skip(i as int)),
    decreases children_size(nodes@.skip(i as int)), nodes@.len() - i + 1nat,
{
    if i < nodes.len() {
        let ghost rest = nodes@.skip(i as int);
        proof {
            assert(rest[0] == nodes@[i as int]);
            assert(rest.drop_first() =~= nodes@.skip(i as int + 1));
            lemma_node_size_at_least(nodes@[i as int]);
        }
        collect_node_text(&nodes[i], out);
        collect_nodes_text(nodes, i + 1, out);
        proof {
            assert(node_text(nodes@[i as int]) + nodes_text(nodes@.skip(i as int + 1))
                == nodes_text(rest));
            assert(old(out)@ + node_text(nodes@[i as int]) + nodes_text(
                nodes@.skip(i as int + 1),
            ) =~= old(out)@ + nodes_text(rest));
        }
    } else {
        proof {
            assert(nodes@.skip(i as int) =~= Seq::<MdNode>::empty());
            assert(old(out)@ + nodes_text(nodes@.skip(i as int)) =~= old(out)@);
        }
    }
}

/// Every node weighs at least four.
pub proof fn lemma_node_size_at_least(n: MdNode)
    ensures
        node_size(n) >= 4,
{
}

/// The HTML of an inert, escaped frontmatter block.
pub open spec fn spec_frontmatter_html(kind: Seq<char>, value: Seq<char>) -> Seq<char> {
    "<pre class=\"frontmatter\" data-kind=\""@ + kind + "\">"@ + spec_escape_text(value)
        + "</pre>"@
}

/// The heading level of a numeric depth, clamped to six.
pub open spec fn spec_level_of_depth(depth: u8) -> HeadingLevel {
    match HeadingLevel::spec_from_depth(depth as usize) {
        Some(level) => level,
        None => HeadingLevel::H6,
    }
}

/// The ordered-list start attribute: the source start clamped to a minimum
/// of one, or `None` for an unordered list.
pub open spec fn spec_list_start(ordered: bool, start: Option<u32>) -> Option<u64> {
    if ordered {
        let raw = match start {
            Some(v) => v,
            None => 1u32,
        };
        if raw < 1 {
            Some(1u64)
        } else {
            Some(raw as u64)
        }
    } else {
        None
    }
}

/// The modelled tag a container node opens with.
pub open spec fn spec_node_tag(n: MdNode) -> TagModel {
    match n {
        MdNode::Paragraph { .. } => TagModel::Paragraph,
        MdNode::Heading { depth, children } => TagModel::Heading {
            level: spec_level_of_depth(depth),
            id: spec_heading_slug(nodes_text(children@)),
            classes: Seq::empty(),
            attrs: Seq::empty(),
        },
        MdNode::Blockquote { .. } => TagModel::BlockQuote,
        MdNode::List { ordered, start, .. } => TagModel::List(spec_list_start(ordered, start)),
        MdNode::ListItem { .. } => TagModel::Item,
        MdNode::FootnoteDefinition { identifier, .. } => TagModel::FootnoteDefinition(identifier@),
        MdNode::Emphasis { .. } => TagModel::Emphasis,
        MdNode::Strong { .. } => TagModel::Strong,
        MdNode::Delete { .. } => TagModel::Strikethrough,
        MdNode::Link { url, title, .. } => TagModel::Link {
            link_type: LinkType::Inline,
            dest_url: url@,
            title: match title {
                Some(t) => t@,
                None => Seq::empty(),
            },
            id: Seq::empty(),
        },
        MdNode::LinkReference { identifier, .. } => TagModel::Link {
            link_type: LinkType::Reference,
            dest_url: Seq::empty(),
            title: Seq::empty(),
            id: identifier@,
        },
        MdNode::Table { align, .. } => TagModel::Table(align@),
        MdNode::TableRow { .. } => TagModel::TableRow,
        MdNode::TableCell { .. } => TagModel::TableCell,
        _ => TagModel::Paragraph,
    }
}

/// The canonical event sequence of one node. `tight` says whether the node
/// stands inside a tight list item, in which case paragraphs are transparent:
/// their children are emitted without the paragraph's own start and end.
pub open spec fn node_events(n: MdNode, tight: bool) -> Seq<EventModel>
    decreases node_size(n), 0nat,
{
    match n {
        MdNode::Root { children } => children_events(children@, tight),
        MdNode::Unsupported { children } => children_events(children@, tight),
        MdNode::Paragraph { children } => {
            if tight {
                children_events(children@, tight)
            } else {
                seq![EventModel::Start(TagModel::Paragraph)] + children_events(children@, tight)
                    + seq![EventModel::End(TagEnd::Paragraph)]
            }
        },
        MdNode::Heading { depth, children } => seq![
            EventModel::Start(
                TagModel::Heading {
                    level: spec_level_of_depth(depth),
                    id: spec_heading_slug(nodes_text(children@)),
                    classes: Seq::empty(),
                    attrs: Seq::empty(),
                },
            ),
        ] + children_events(children@, tight) + seq![
            EventModel::End(TagEnd::Heading(spec_level_of_depth(depth))),
        ],
        MdNode::Blockquote { children } => seq![EventModel::Start(TagModel::BlockQuote)]
            + children_events(children@, tight) + seq![EventModel::End(TagEnd::BlockQuote)],
        MdNode::List { ordered, start, children } => seq![
            EventModel::Start(TagModel::List(spec_list_start(ordered, start))),
        ] + children_events(children@, tight) + seq![EventModel::End(TagEnd::List(ordered))],
        MdNode::FootnoteDefinition { identifier, children } => seq![
            EventModel::Start(TagModel::FootnoteDefinition(identifier@)),
        ] + children_events(children@, tight) + seq![
            EventModel::End(TagEnd::FootnoteDefinition),
        ],
        MdNode::Emphasis { children } => seq![EventModel::Start(TagModel::Emphasis)]
            + children_events(children@, tight) + seq![EventModel::End(TagEnd::Emphasis)],
        MdNode::Strong { children } => seq![EventModel::Start(TagModel::Strong)]
            + children_events(children@, tight) + seq![EventModel::End(TagEnd::Strong)],
        MdNode::Delete { children } => seq![EventModel::Start(TagModel::Strikethrough)]
            + children_events(children@, tight) + seq![EventModel::End(TagEnd::Strikethrough)],
        MdNode::Link { url, title, children } => seq![
            EventModel::Start(
                TagModel::Link {
                    link_type: LinkType::Inline,
                    dest_url: url@,
                    title: match title {
                        Some(t) => t@,
                        None => Seq::empty(),
                    },
                    id: Seq::empty(),
                },
            ),
        ] + children_events(children@, tight) + seq![EventModel::End(TagEnd::Link)],
        MdNode::LinkReference { identifier, children } => seq![
            EventModel::Start(
                TagModel::Link {
                    link_type: LinkType::Reference,
                    dest_url: Seq::empty(),
                    title: Seq::empty(),
                    id: identifier@,
                },
            ),
        ] + children_events(children@, tight) + seq![EventModel::End(TagEnd::Link)],
        MdNode::Table { align, children } => seq![EventModel::Start(TagModel::Table(align@))]
            + children_events(children@, tight) + seq![EventModel::End(TagEnd::Table)],
        MdNode::TableRow { children } => seq![EventModel::Start(TagModel::TableRow)]
            + children_events(children@, tight) + seq![EventModel::End(TagEnd::TableRow)],
        MdNode::TableCell { children } => seq![EventModel::Start(TagModel::TableCell)]
            + children_events(children@, tight) + seq![EventModel::End(TagEnd::TableCell)],
        MdNode::ListItem { checked, spread, children } => {
            let markers = match checked {
                Some(done) => seq![EventModel::TaskListMarker(done)],
                None => Seq::<EventModel>::empty(),
            };
            seq![EventModel::Start(TagModel::Item)] + markers + children_events(
                children@,
                tight || !spread,
            ) + seq![EventModel::End(TagEnd::Item)]
        },
        MdNode::Code { lang, value } => {
            let kind = match lang {
                Some(l) => CodeBlockKindModel::Fenced(l@),
                None => CodeBlockKindModel::Indented,
            };
            seq![
                EventModel::Start(TagModel::CodeBlock(kind)),
                EventModel::Text(value@),
                EventModel::End(TagEnd::CodeBlock),
            ]
        },
        MdNode::Text { value } => seq![EventModel::Text(value@)],
        MdNode::InlineCode { value } => seq![EventModel::Code(value@)],
        MdNode::InlineMath { value } => seq![EventModel::InlineMath(value@)],
        MdNode::Math { value } => seq![EventModel::DisplayMath(value@)],
        MdNode::Break => seq![EventModel::HardBreak],
        MdNode::ThematicBreak => seq![EventModel::Rule],
        MdNode::Html { value } => seq![EventModel::Html(value@)],
        MdNode::Toml { value } => seq![
            EventModel::Html(spec_frontmatter_html("toml"@, value@)),
        ],
        MdNode::Yaml { value } => seq![
            EventModel::Html(spec_frontmatter_html("yaml"@, value@)),
        ],
        MdNode::MdxjsEsm { value } => seq![EventModel::Html(value@)],
        MdNode::FootnoteReference { identifier } => seq![
            EventModel::FootnoteReference(identifier@),
        ],
        MdNode::Image { url, title, alt } => {
            let tag = TagModel::Image {
                link_type: LinkType::Inline,
                dest_url: url@,
                title: match title {
                    Some(t) => t@,
                    None => Seq::empty(),
                },
                id: Seq::empty(),
            };
            let text = if alt@.len() > 0 {
                seq![EventModel::Text(alt@)]
            } else {
                Seq::<EventModel>::empty()
            };
            seq![EventModel::Start(tag)] + text + seq![EventModel::End(TagEnd::Image)]
        },
        MdNode::ImageReference { identifier, alt } => {
            let tag = TagModel::Image {
                link_type: LinkType::Reference,
                dest_url: Seq::empty(),
                title: Seq::empty(),
                id: identifier@,
            };
            let text = if alt@.len() > 0 {
                seq![EventModel::Text(alt@)]
            } else {
                Seq::<EventModel>::empty()
            };
            seq![EventModel::Start(tag)] + text + seq![EventModel::End(TagEnd::Image)]
        },
    }
}

/// The children of a plain container node, for the event-sequence
/// definition.
pub open spec fn spec_node_children(n: MdNode) -> Seq<MdNode> {
    match n {
        MdNode::Root { children } => children@,
        MdNode::Paragraph { children } => children@,
        MdNode::Heading { children, .. } => children@,
        MdNode::Blockquote { children } => children@,
        MdNode::List { children, .. } => children@,
        MdNode::ListItem { children, .. } => children@,
        MdNode::FootnoteDefinition { children, .. } => children@,
        MdNode::Emphasis { children } => children@,
        MdNode::Strong { children } => children@,
        MdNode::Delete { children } => children@,
        MdNode::Link { children, .. } => children@,
        MdNode::LinkReference { children, .. } => children@,
        MdNode::Table { children, .. } => children@,
        MdNode::TableRow { children } => children@,
        MdNode::TableCell { children } => children@,
        MdNode::Unsupported { children } => children@,
        _ => Seq::empty(),
    }
}

/// The concatenated event sequences of a sequence of nodes.
pub open spec fn children_events(s: Seq<MdNode>, tight: bool) -> Seq<EventModel>
    decreases children_size(s), 1nat + s.len(),
{
    if s.len() == 0 {
        Seq::empty()
    } else {
        node_events(s[0], tight) + children_events(s.drop_first(), tight)
    }
}


/// The mathematical model of a parse-tree node: strings become character
/// sequences and child vectors become sequences. Two nodes with the same
/// model render identically; the model is also the domain in which the
/// external parser's result is named.
#[verifier::ext_equal]
pub ghost enum MdModel {
    Root { children: Seq<MdModel> },
    Paragraph { children: Seq<MdModel> },
    Heading { depth: u8, children: Seq<MdModel> },
    Blockquote { children: Seq<MdModel> },
    List { ordered: bool, start: Option<u32>, children: Seq<MdModel> },
    ListItem { checked: Option<bool>, spread: bool, children: Seq<MdModel> },
    FootnoteDefinition { identifier: Seq<char>, children: Seq<MdModel> },
    Code { lang: Option<Seq<char>>, value: Seq<char> },
    Text { value: Seq<char> },
    Emphasis { children: Seq<MdModel> },
    Strong { children: Seq<MdModel> },
    Delete { children: Seq<MdModel> },
    InlineCode { value: Seq<char> },
    InlineMath { value: Seq<char> },
    Math { value: Seq<char> },
    Break,
    ThematicBreak,
    Link { url: Seq<char>, title: Option<Seq<char>>, children: Seq<MdModel> },
    LinkReference { identifier: Seq<char>, children: Seq<MdModel> },
    Image { url: Seq<char>, title: Option<Seq<char>>, alt: Seq<char> },
    ImageReference { identifier: Seq<char>, alt: Seq<char> },
    Html { value: Seq<char> },
    Table { align: Seq<Alignment>, children: Seq<MdModel> },
    TableRow { children: Seq<MdModel> },
    TableCell { children: Seq<MdModel> },
    Toml { value: Seq<char> },
    Yaml { value: Seq<char> },
    MdxjsEsm { value: Seq<char> },
    FootnoteReference { identifier: Seq<char> },
    Unsupported { children: Seq<MdModel> },
}

/// The view of an optional string as an optional character sequence.
pub open spec fn opt_view(s: Option<String>) -> Option<Seq<char>> {
    match s {
        Some(v) => Some(v@),
        None => None,
    }
}

/// The model of one node.
pub open spec fn node_model(n: MdNode) -> MdModel
    decreases node_size(n), 0nat,
{
    match n {
        MdNode::Root { children } => MdModel::Root { children: children_models(children@) },
        MdNode::Paragraph { children } => MdModel::Paragraph {
            children: children_models(children@),
        },
        MdNode::Heading { depth, children } => MdModel::Heading {
            depth,
            children: children_models(children@),
        },
        MdNode::Blockquote { children } => MdModel::Blockquote {
            children: children_models(children@),
        },
        MdNode::List { ordered, start, children } => MdModel::List {
            ordered,
            start,
            children: children_models(children@),
        },
        MdNode::ListItem { checked, spread, children } => MdModel::ListItem {
            checked,
            spread,
            children: children_models(children@),
        },
        MdNode::FootnoteDefinition { identifier, children } => MdModel::FootnoteDefinition {
            identifier: identifier@,
            children: children_models(children@),
        },
        MdNode::Code { lang, value } => MdModel::Code { lang: opt_view(lang), value: value@ },
        MdNode::Text { value } => MdModel::Text { value: value@ },
        MdNode::Emphasis { children } => MdModel::Emphasis {
            children: children_models(children@),
        },
        MdNode::Strong { children } => MdModel::Strong { children: children_models(children@) },
        MdNode::Delete { children } => MdModel::Delete { children: children_models(children@) },
        MdNode::InlineCode { value } => MdModel::InlineCode { value: value@ },
        MdNode::InlineMath { value } => MdModel::InlineMath { value: value@ },
        MdNode::Math { value } => MdModel::Math { value: value@ },
        MdNode::Break => MdModel::Break,
        MdNode::ThematicBreak => MdModel::ThematicBreak,
        MdNode::Link { url, title, children } => MdModel::Link {
            url: url@,
            title: opt_view(title),
            children: children_models(children@),
        },
        MdNode::LinkReference { identifier, children } => MdModel::LinkReference {
            identifier: identifier@,
            children: children_models(children@),
        },
        MdNode::Image { url, title, alt } => MdModel::Image {
            url: url@,
            title: opt_view(title),
            alt: alt@,
        },
        MdNode::ImageReference { identifier, alt } => MdModel::ImageReference {
            identifier: identifier@,
            alt: alt@,
        },
        MdNode::Html { value } => MdModel::Html { value: value@ },
        MdNode::Table { align, children } => MdModel::Table {
            align: align@,
            children: children_models(children@),
        },
        MdNode::TableRow { children } => MdModel::TableRow {
            children: children_models(children@),
        },
        MdNode::TableCell { children } => MdModel::TableCell {
            children: children_models(children@),
        },
        MdNode::Toml { value } => MdModel::Toml { value: value@ },
        MdNode::Yaml { value } => MdModel::Yaml { value: value@ },
        MdNode::MdxjsEsm { value } => MdModel::MdxjsEsm { value: value@ },
        MdNode::FootnoteReference { identifier } => MdModel::FootnoteReference {
            identifier: identifier@,
        },
        MdNode::Unsupported { children } => MdModel::Unsupported {
            children: children_models(children@),
        },
    }
}

/// The models of a list of nodes.
pub open spec fn children_models(s: Seq<MdNode>) -> Seq<MdModel>
    decreases children_size(s), 1nat + s.len(),
{
    if s.len() == 0 {
        Seq::empty()
    } else {
        seq![node_model(s[0])] + children_models(s.drop_first())
    }
}

/// The models of a list of nodes, written pointwise.
pub proof fn lemma_children_models_pointwise(s: Seq<MdNode>)
    ensures
        children_models(s) == Seq::new(s.len(), |i: int| node_model(s[i])),
    decreases s.len(),
{
    if s.len() == 0 {
        assert(children_models(s) =~= Seq::new(s.len(), |i: int| node_model(s[i])));
    } else {
        lemma_children_models_pointwise(s.drop_first());
        assert(children_models(s) =~= Seq::new(s.len(), |i: int| node_model(s[i])));
    }
}


/// The visible text of a modelled node, mirroring `node_text`.
pub open spec fn model_text(m: MdModel) -> Seq<char>
    decreases m,
{
    match m {
        MdModel::Text { value } => value,
        MdModel::InlineCode { value } => value,
        MdModel::Root { children } => models_text(children),
        MdModel::Paragraph { children } => models_text(children),
        MdModel::Blockquote { children } => models_text(children),
        MdModel::List { children, .. } => models_text(children),
        MdModel::ListItem { children, .. } => models_text(children),
        MdModel::FootnoteDefinition { children, .. } => models_text(children),
        MdModel::Emphasis { children } => models_text(children),
        MdModel::Strong { children } => models_text(children),
        MdModel::Delete { children } => models_text(children),
        MdModel::Link { children, .. } => models_text(children),
        MdModel::LinkReference { children, .. } => models_text(children),
        MdModel::Table { children, .. } => models_text(children),
        MdModel::TableRow { children } => models_text(children),
        MdModel::TableCell { children } => models_text(children),
        MdModel::Unsupported { children } => models_text(children),
        _ => Seq::empty(),
    }
}

/// The concatenated visible text of modelled nodes.
pub open spec fn models_text(s: Seq<MdModel>) -> Seq<char>
    decreases s,
{
    if s.len() == 0 {
        Seq::empty()
    } else {
        model_text(s[0]) + models_text(s.drop_first())
    }
}

/// The canonical event sequence of a modelled node, mirroring `node_events`.
pub open spec fn model_events(m: MdModel, tight: bool) -> Seq<EventModel>
    decreases m,
{
    match m {
        MdModel::Root { children } => models_events(children, tight),
        MdModel::Unsupported { children } => models_events(children, tight),
        MdModel::Paragraph { children } => {
            if tight {
                models_events(children, tight)
            } else {
                seq![EventModel::Start(TagModel::Paragraph)] + models_events(children, tight)
                    + seq![EventModel::End(TagEnd::Paragraph)]
            }
        },
        MdModel::Heading { depth, children } => seq![
            EventModel::Start(
                TagModel::Heading {
                    level: spec_level_of_depth(depth),
                    id: spec_heading_slug(models_text(children)),
                    classes: Seq::empty(),
                    attrs: Seq::empty(),
                },
            ),
        ] + models_events(children, tight) + seq![
            EventModel::End(TagEnd::Heading(spec_level_of_depth(depth))),
        ],
        MdModel::Blockquote { children } => seq![EventModel::Start(TagModel::BlockQuote)]
            + models_events(children, tight) + seq![EventModel::End(TagEnd::BlockQuote)],
        MdModel::List { ordered, start, children } => seq![
            EventModel::Start(TagModel::List(spec_list_start(ordered, start))),
        ] + models_events(children, tight) + seq![EventModel::End(TagEnd::List(ordered))],
        MdModel::FootnoteDefinition { identifier, children } => seq![
            EventModel::Start(TagModel::FootnoteDefinition(identifier)),
        ] + models_events(children, tight) + seq![
            EventModel::End(TagEnd::FootnoteDefinition),
        ],
        MdModel::Emphasis { children } => seq![EventModel::Start(TagModel::Emphasis)]
            + models_events(children, tight) + seq![EventModel::End(TagEnd::Emphasis)],
        MdModel::Strong { children } => seq![EventModel::Start(TagModel::Strong)]
            + models_events(children, tight) + seq![EventModel::End(TagEnd::Strong)],
        MdModel::Delete { children } => seq![EventModel::Start(TagModel::Strikethrough)]
            + models_events(children, tight) + seq![EventModel::End(TagEnd::Strikethrough)],
        MdModel::Link { url, title, children } => seq![
            EventModel::Start(
                TagModel::Link {
                    link_type: LinkType::Inline,
                    dest_url: url,
                    title: match title {
                        Some(t) => t,
                        None => Seq::empty(),
                    },
                    id: Seq::empty(),
                },
            ),
        ] + models_events(children, tight) + seq![EventModel::End(TagEnd::Link)],
        MdModel::LinkReference { identifier, children } => seq![
            EventModel::Start(
                TagModel::Link {
                    link_type: LinkType::Reference,
                    dest_url: Seq::empty(),
                    title: Seq::empty(),
                    id: identifier,
                },
            ),
        ] + models_events(children, tight) + seq![EventModel::End(TagEnd::Link)],
        MdModel::Table { align, children } => seq![EventModel::Start(TagModel::Table(align))]
            + models_events(children, tight) + seq![EventModel::End(TagEnd::Table)],
        MdModel::TableRow { children } => seq![EventModel::Start(TagModel::TableRow)]
            + models_events(children, tight) + seq![EventModel::End(TagEnd::TableRow)],
        MdModel::TableCell { children } => seq![EventModel::Start(TagModel::TableCell)]
            + models_events(children, tight) + seq![EventModel::End(TagEnd::TableCell)],
        MdModel::ListItem { checked, spread, children } => {
            let markers = match checked {
                Some(done) => seq![EventModel::TaskListMarker(done)],
                None => Seq::<EventModel>::empty(),
            };
            seq![EventModel::Start(TagModel::Item)] + markers + models_events(
                children,
                tight || !spread,
            ) + seq![EventModel::End(TagEnd::Item)]
        },
        MdModel::Code { lang, value } => {
            let kind = match lang {
                Some(l) => CodeBlockKindModel::Fenced(l),
                None => CodeBlockKindModel::Indented,
            };
            seq![
                EventModel::Start(TagModel::CodeBlock(kind)),
                EventModel::Text(value),
                EventModel::End(TagEnd::CodeBlock),
            ]
        },
        MdModel::Text { value } => seq![EventModel::Text(value)],
        MdModel::InlineCode { value } => seq![EventModel::Code(value)],
        MdModel::InlineMath { value } => seq![EventModel::InlineMath(value)],
        MdModel::Math { value } => seq![EventModel::DisplayMath(value)],
        MdModel::Break => seq![EventModel::HardBreak],
        MdModel::ThematicBreak => seq![EventModel::Rule],
        MdModel::Html { value } => seq![EventModel::Html(value)],
        MdModel::Toml { value } => seq![
            EventModel::Html(spec_frontmatter_html("toml"@, value)),
        ],
        MdModel::Yaml { value } => seq![
            EventModel::Html(spec_frontmatter_html("yaml"@, value)),
        ],
        MdModel::MdxjsEsm { value } => seq![EventModel::Html(value)],
        MdModel::FootnoteReference { identifier } => seq![
            EventModel::FootnoteReference(identifier),
        ],
        MdModel::Image { url, title, alt } => {
            let tag = TagModel::Image {
                link_type: LinkType::Inline,
                dest_url: url,
                title: match title {
                    Some(t) => t,
                    None => Seq::empty(),
                },
                id: Seq::empty(),
            };
            let text = if alt.len() > 0 {
                seq![EventModel::Text(alt)]
            } else {
                Seq::<EventModel>::empty()
            };
            seq![EventModel::Start(tag)] + text + seq![EventModel::End(TagEnd::Image)]
        },
        MdModel::ImageReference { identifier, alt } => {
            let tag = TagModel::Image {
                link_type: LinkType::Reference,
                dest_url: Seq::empty(),
                title: Seq::empty(),
                id: identifier,
            };
            let text = if alt.len() > 0 {
                seq![EventModel::Text(alt)]
            } else {
                Seq::<EventModel>::empty()
            };
            seq![EventModel::Start(tag)] + text + seq![EventModel::End(TagEnd::Image)]
        },
    }
}

/// The concatenated event sequences of modelled nodes.
pub open spec fn models_events(s: Seq<MdModel>, tight: bool) -> Seq<EventModel>
    decreases s,
{
    if s.len() == 0 {
        Seq::empty()
    } else {
        model_events(s[0], tight) + models_events(s.drop_first(), tight)
    }
}

/// A node's model carries exactly the node's visible text.
pub proof fn lemma_model_text_agrees(n: MdNode)
    ensures
        model_text(node_model(n)) == node_text(n),
    decreases node_size(n), 0nat,
{
    match n {
        MdNode::Text { value } => {
        },
        MdNode::InlineCode { value } => {
        },
        MdNode::Root { children } => {
            lemma_models_text_agree(children@);
        },
        MdNode::Paragraph { children } => {
            lemma_models_text_agree(children@);
        },
        MdNode::Blockquote { children } => {
            lemma_models_text_agree(children@);
        },
        MdNode::List { children, .. } => {
            lemma_models_text_agree(children@);
        },
        MdNode::ListItem { children, .. } => {
            lemma_models_text_agree(children@);
        },
        MdNode::FootnoteDefinition { children, .. } => {
            lemma_models_text_agree(children@);
        },
        MdNode::Emphasis { children } => {
            lemma_models_text_agree(children@);
        },
        MdNode::Strong { children } => {
            lemma_models_text_agree(children@);
        },
        MdNode::Delete { children } => {
            lemma_models_text_agree(children@);
        },
        MdNode::Link { children, .. } => {
            lemma_models_text_agree(children@);
        },
        MdNode::LinkReference { children, .. } => {
            lemma_models_text_agree(children@);
        },
        MdNode::Table { children, .. } => {
            lemma_models_text_agree(children@);
        },
        MdNode::TableRow { children } => {
            lemma_models_text_agree(children@);
        },
        MdNode::TableCell { children } => {
            lemma_models_text_agree(children@);
        },
        MdNode::Unsupported { children } => {
            lemma_models_text_agree(children@);
        },
        _ => {
        },
    }
}

/// A node list's models carry exactly the list's visible text.
pub proof fn lemma_models_text_agree(s: Seq<MdNode>)
    ensures
        models_text(children_models(s)) == nodes_text(s),
    decreases children_size(s), s.len() + 1nat,
{
    if s.len() == 0 {
    } else {
        lemma_node_size_at_least(s[0]);
        lemma_model_text_agrees(s[0]);
        lemma_models_text_agree(s.drop_first());
        assert(children_models(s)[0] == node_model(s[0]));
        assert(children_models(s).drop_first() =~= children_models(s.drop_first()));
    }
}

/// A node's model renders to exactly the node's canonical event sequence.
#[verifier::rlimit(100)]
#[verifier::spinoff_prover]
pub proof fn lemma_model_events_agree(n: MdNode, tight: bool)
    ensures
        model_events(node_model(n), tight) == node_events(n, tight),
    decreases node_size(n), 0nat,
{
    match n {
        MdNode::Root { children } => {
            lemma_models_events_agree(children@, tight);
        },
        MdNode::Unsupported { children } => {
            lemma_models_events_agree(children@, tight);
        },
        MdNode::Paragraph { children } => {
            lemma_models_events_agree(children@, tight);
        },
        MdNode::Heading { depth, children } => {
            lemma_models_text_agree(children@);
            lemma_models_events_agree(children@, tight);
        },
        MdNode::Blockquote { children } => {
            lemma_models_events_agree(children@, tight);
        },
        MdNode::List { ordered, start, children } => {
            lemma_models_events_agree(children@, tight);
        },
        MdNode::FootnoteDefinition { identifier, children } => {
            lemma_models_events_agree(children@, tight);
        },
        MdNode::Emphasis { children } => {
            lemma_models_events_agree(children@, tight);
        },
        MdNode::Strong { children } => {
            lemma_models_events_agree(children@, tight);
        },
        MdNode::Delete { children } => {
            lemma_models_events_agree(children@, tight);
        },
        MdNode::Link { url, title, children } => {
            lemma_models_events_agree(children@, tight);
        },
        MdNode::LinkReference { identifier, children } => {
            lemma_models_events_agree(children@, tight);
        },
        MdNode::Table { align, children } => {
            lemma_models_events_agree(children@, tight);
        },
        MdNode::TableRow { children } => {
            lemma_models_events_agree(children@, tight);
        },
        MdNode::TableCell { children } => {
            lemma_models_events_agree(children@, tight);
        },
        MdNode::ListItem { checked, spread, children } => {
            lemma_models_events_agree(children@, tight || !spread);
        },
        _ => {
        },
    }
}

/// A node list's models render to exactly the list's events.
pub proof fn lemma_models_events_agree(s: Seq<MdNode>, tight: bool)
    ensures
        models_events(children_models(s), tight) == children_events(s, tight),
    decreases children_size(s), s.len() + 1nat,
{
    if s.len() == 0 {
    } else {
        lemma_node_size_at_least(s[0]);
        lemma_model_events_agree(s[0], tight);
        lemma_models_events_agree(s.drop_first(), tight);
        assert(children_models(s)[0] == node_model(s[0]));
        assert(children_models(s).drop_first() =~= children_models(s.drop_first()));
    }
}

} // verus!
