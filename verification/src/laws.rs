//! Structural laws of the canonical event stream.
//!
//! Balance: for every node, each tag kind opens exactly as often as it
//! closes, and a scan of the stream never meets an end event whose matching
//! start is not the most recently unclosed one. Tightness: inside a tight
//! list item no paragraph events are emitted at all, while a loose item keeps
//! the paragraph events of its paragraphs.

use vstd::prelude::*;

use crate::event::EventModel;
use crate::event::TagEnd;
use crate::event::TagModel;
use crate::tree::MdNode;
use crate::tree::children_events;
use crate::tree::children_size;
use crate::tree::node_events;
use crate::tree::node_size;

verus! {

/// Scans an event sequence against a stack of expected end tags: starts push
/// their closing kind, an end must match the top of the stack, every other
/// event passes through. `None` means the sequence is not well nested.
pub open spec fn scan_events(events: Seq<EventModel>, stack: Seq<TagEnd>) -> Option<Seq<TagEnd>>
    decreases events.len(),
{
    if events.len() == 0 {
        Some(stack)
    } else {
        match events[0] {
            EventModel::Start(t) => scan_events(events.drop_first(), stack.push(t.end())),
            EventModel::End(e) => {
                if stack.len() > 0 && stack.last() == e {
                    scan_events(events.drop_first(), stack.drop_last())
                } else {
                    None
                }
            },
            _ => scan_events(events.drop_first(), stack),
        }
    }
}

/// A sequence is well nested when a scan from the empty stack succeeds and
/// leaves the stack empty: every end matches the most recently unclosed
/// start, and nothing stays open.
pub open spec fn well_nested(events: Seq<EventModel>) -> bool {
    scan_events(events, Seq::empty()) == Some(Seq::<TagEnd>::empty())
}

/// Scanning a concatenation scans the first part, then the second from the
/// stack the first part left.
pub proof fn lemma_scan_append(a: Seq<EventModel>, b: Seq<EventModel>, stack: Seq<TagEnd>)
    ensures
        scan_events(a + b, stack) == (match scan_events(a, stack) {
            Some(mid) => scan_events(b, mid),
            None => None,
        }),
    decreases a.len(),
{
    if a.len() == 0 {
        assert(a + b =~= b);
    } else {
        assert((a + b)[0] == a[0]);
        assert((a + b).drop_first() =~= a.drop_first() + b);
        match a[0] {
            EventModel::Start(t) => {
                lemma_scan_append(a.drop_first(), b, stack.push(t.end()));
            },
            EventModel::End(e) => {
                if stack.len() > 0 && stack.last() == e {
                    lemma_scan_append(a.drop_first(), b, stack.drop_last());
                }
            },
            _ => {
                lemma_scan_append(a.drop_first(), b, stack);
            },
        }
    }
}

proof fn lemma_scan_passthrough(e: EventModel, stack: Seq<TagEnd>)
    requires
        !(e is Start),
        !(e is End),
    ensures
        scan_events(seq![e], stack) == Some(stack),
{
    assert(seq![e][0] == e);
    assert(seq![e].drop_first() =~= Seq::<EventModel>::empty());
    assert(scan_events(Seq::<EventModel>::empty(), stack) == Some(stack));
}

proof fn lemma_scan_wrap(tag: TagModel, inner: Seq<EventModel>, stack: Seq<TagEnd>)
    requires
        scan_events(inner, stack.push(tag.end())) == Some(stack.push(tag.end())),
    ensures
        scan_events(
            seq![EventModel::Start(tag)] + inner + seq![EventModel::End(tag.end())],
            stack,
        ) == Some(stack),
{
    let start = seq![EventModel::Start(tag)];
    let end = seq![EventModel::End(tag.end())];
    let pushed = stack.push(tag.end());
    assert(start.drop_first() =~= Seq::<EventModel>::empty());
    assert(scan_events(Seq::<EventModel>::empty(), pushed) == Some(pushed));
    assert(scan_events(start, stack) == Some(pushed));
    lemma_scan_append(start, inner + end, stack);
    assert(start + inner + end =~= start + (inner + end));
    lemma_scan_append(inner, end, pushed);
    assert(end[0] == EventModel::End(tag.end()));
    assert(pushed.last() == tag.end());
    assert(pushed.drop_last() =~= stack);
    assert(end.drop_first() =~= Seq::<EventModel>::empty());
    assert(scan_events(Seq::<EventModel>::empty(), stack) == Some(stack));
    assert(scan_events(end, pushed) == Some(stack));
}

/// Balance of one plain container: start, balanced children, matching end.
proof fn lemma_scan_container(
    n: MdNode,
    tight: bool,
    stack: Seq<TagEnd>,
    tag: TagModel,
    children: Seq<MdNode>,
)
    requires
        node_events(n, tight) == seq![EventModel::Start(tag)] + children_events(children, tight)
            + seq![EventModel::End(tag.end())],
        children_size(children) < node_size(n),
    ensures
        scan_events(node_events(n, tight), stack) == Some(stack),
    decreases node_size(n), 0nat,
{
    lemma_children_events_scan(children, tight, stack.push(tag.end()));
    lemma_scan_wrap(tag, children_events(children, tight), stack);
}

/// Structural balance of one node's event stream: from any stack, scanning
/// the events of a node returns that same stack, so every start is closed by
/// exactly its matching end, in order.
#[verifier::rlimit(100)]
#[verifier::spinoff_prover]
pub proof fn lemma_node_events_scan(n: MdNode, tight: bool, stack: Seq<TagEnd>)
    ensures
        scan_events(node_events(n, tight), stack) == Some(stack),
    decreases node_size(n), 1nat,
{
    let events = node_events(n, tight);
    match n {
        MdNode::Root { children } => {
            lemma_children_events_scan(children@, tight, stack);
        },
        MdNode::Unsupported { children } => {
            lemma_children_events_scan(children@, tight, stack);
        },
        MdNode::Paragraph { children } => {
            if tight {
                lemma_children_events_scan(children@, tight, stack);
            } else {
                let tag = TagModel::Paragraph;
                lemma_children_events_scan(children@, tight, stack.push(tag.end()));
                lemma_scan_wrap(tag, children_events(children@, tight), stack);
            }
        },
        MdNode::Heading { depth, children } => {
            crate::tree::lemma_node_size_at_least(n);
            lemma_scan_container(n, tight, stack, crate::tree::spec_node_tag(n), children@);
        },
        MdNode::Blockquote { children } => {
            crate::tree::lemma_node_size_at_least(n);
            lemma_scan_container(n, tight, stack, crate::tree::spec_node_tag(n), children@);
        },
        MdNode::List { ordered, start, children } => {
            crate::tree::lemma_node_size_at_least(n);
            lemma_scan_container(n, tight, stack, crate::tree::spec_node_tag(n), children@);
        },
        MdNode::FootnoteDefinition { identifier, children } => {
            crate::tree::lemma_node_size_at_least(n);
            lemma_scan_container(n, tight, stack, crate::tree::spec_node_tag(n), children@);
        },
        MdNode::Emphasis { children } => {
            crate::tree::lemma_node_size_at_least(n);
            lemma_scan_container(n, tight, stack, crate::tree::spec_node_tag(n), children@);
        },
        MdNode::Strong { children } => {
            crate::tree::lemma_node_size_at_least(n);
            lemma_scan_container(n, tight, stack, crate::tree::spec_node_tag(n), children@);
        },
        MdNode::Delete { children } => {
            crate::tree::lemma_node_size_at_least(n);
            lemma_scan_container(n, tight, stack, crate::tree::spec_node_tag(n), children@);
        },
        MdNode::Link { url, title, children } => {
            crate::tree::lemma_node_size_at_least(n);
            lemma_scan_container(n, tight, stack, crate::tree::spec_node_tag(n), children@);
        },
        MdNode::LinkReference { identifier, children } => {
            crate::tree::lemma_node_size_at_least(n);
            lemma_scan_container(n, tight, stack, crate::tree::spec_node_tag(n), children@);
        },
        MdNode::Table { align, children } => {
            crate::tree::lemma_node_size_at_least(n);
            lemma_scan_container(n, tight, stack, crate::tree::spec_node_tag(n), children@);
        },
        MdNode::TableRow { children } => {
            crate::tree::lemma_node_size_at_least(n);
            lemma_scan_container(n, tight, stack, crate::tree::spec_node_tag(n), children@);
        },
        MdNode::TableCell { children } => {
            crate::tree::lemma_node_size_at_least(n);
            lemma_scan_container(n, tight, stack, crate::tree::spec_node_tag(n), children@);
        },
        MdNode::ListItem { checked, spread, children } => {
            let tag = TagModel::Item;
            let markers = match checked {
                Some(done) => seq![EventModel::TaskListMarker(done)],
                None => Seq::<EventModel>::empty(),
            };
            let inner = markers + children_events(children@, tight || !spread);
            let pushed = stack.push(tag.end());
            if checked is Some {
                lemma_scan_passthrough(markers[0], pushed);
            }
            lemma_children_events_scan(children@, tight || !spread, pushed);
            lemma_scan_append(markers, children_events(children@, tight || !spread), pushed);
            lemma_scan_wrap(tag, inner, stack);
            assert(events =~= seq![EventModel::Start(tag)] + inner + seq![
                EventModel::End(tag.end()),
            ]);
        },
        MdNode::Code { lang, value } => {
            let kind = match lang {
                Some(l) => crate::event::CodeBlockKindModel::Fenced(l@),
                None => crate::event::CodeBlockKindModel::Indented,
            };
            let tag = TagModel::CodeBlock(kind);
            let inner = seq![EventModel::Text(value@)];
            lemma_scan_passthrough(EventModel::Text(value@), stack.push(tag.end()));
            lemma_scan_wrap(tag, inner, stack);
            assert(events =~= seq![EventModel::Start(tag)] + inner + seq![
                EventModel::End(tag.end()),
            ]);
        },
        MdNode::Image { url, title, alt } => {
            let tag = TagModel::Image {
                link_type: crate::event::LinkType::Inline,
                dest_url: url@,
                title: match title {
                    Some(t) => t@,
                    None => Seq::empty(),
                },
                id: Seq::empty(),
            };
            let inner = if alt@.len() > 0 {
                seq![EventModel::Text(alt@)]
            } else {
                Seq::<EventModel>::empty()
            };
            if alt@.len() > 0 {
                lemma_scan_passthrough(EventModel::Text(alt@), stack.push(tag.end()));
            }
            lemma_scan_wrap(tag, inner, stack);
            assert(events =~= seq![EventModel::Start(tag)] + inner + seq![
                EventModel::End(tag.end()),
            ]);
        },
        MdNode::ImageReference { identifier, alt } => {
            let tag = TagModel::Image {
                link_type: crate::event::LinkType::Reference,
                dest_url: Seq::empty(),
                title: Seq::empty(),
                id: identifier@,
            };
            let inner = if alt@.len() > 0 {
                seq![EventModel::Text(alt@)]
            } else {
                Seq::<EventModel>::empty()
            };
            if alt@.len() > 0 {
                lemma_scan_passthrough(EventModel::Text(alt@), stack.push(tag.end()));
            }
            lemma_scan_wrap(tag, inner, stack);
            assert(events =~= seq![EventModel::Start(tag)] + inner + seq![
                EventModel::End(tag.end()),
            ]);
        },
        MdNode::Text { value } => {
            lemma_scan_passthrough(EventModel::Text(value@), stack);
            assert(events =~= seq![EventModel::Text(value@)]);
        },
        MdNode::InlineCode { value } => {
            lemma_scan_passthrough(EventModel::Code(value@), stack);
            assert(events =~= seq![EventModel::Code(value@)]);
        },
        MdNode::InlineMath { value } => {
            lemma_scan_passthrough(EventModel::InlineMath(value@), stack);
            assert(events =~= seq![EventModel::InlineMath(value@)]);
        },
        MdNode::Math { value } => {
            lemma_scan_passthrough(EventModel::DisplayMath(value@), stack);
            assert(events =~= seq![EventModel::DisplayMath(value@)]);
        },
        MdNode::Break => {
            lemma_scan_passthrough(EventModel::HardBreak, stack);
            assert(events =~= seq![EventModel::HardBreak]);
        },
        MdNode::ThematicBreak => {
            lemma_scan_passthrough(EventModel::Rule, stack);
            assert(events =~= seq![EventModel::Rule]);
        },
        MdNode::Html { value } => {
            lemma_scan_passthrough(EventModel::Html(value@), stack);
            assert(events =~= seq![EventModel::Html(value@)]);
        },
        MdNode::Toml { value } => {
            lemma_scan_passthrough(events[0], stack);
            assert(events =~= seq![events[0]]);
        },
        MdNode::Yaml { value } => {
            lemma_scan_passthrough(events[0], stack);
            assert(events =~= seq![events[0]]);
        },
        MdNode::MdxjsEsm { value } => {
            lemma_scan_passthrough(EventModel::Html(value@), stack);
            assert(events =~= seq![EventModel::Html(value@)]);
        },
        MdNode::FootnoteReference { identifier } => {
            lemma_scan_passthrough(EventModel::FootnoteReference(identifier@), stack);
            assert(events =~= seq![EventModel::FootnoteReference(identifier@)]);
        },
    }
}

/// Structural balance of a node list's event stream.
pub proof fn lemma_children_events_scan(s: Seq<MdNode>, tight: bool, stack: Seq<TagEnd>)
    ensures
        scan_events(children_events(s, tight), stack) == Some(stack),
    decreases children_size(s), s.len() + 2nat,
{
    if s.len() == 0 {
    } else {
        crate::tree::lemma_node_size_at_least(s[0]);
        lemma_node_events_scan(s[0], tight, stack);
        lemma_children_events_scan(s.drop_first(), tight, stack);
        lemma_scan_append(node_events(s[0], tight), children_events(s.drop_first(), tight), stack);
    }
}

/// Structural balance, as stated for a whole tree: its event stream is well
/// nested, so each tag kind's starts and ends pair up exactly, in pre-order.
pub proof fn lemma_tree_events_well_nested(n: MdNode, tight: bool)
    ensures
        well_nested(node_events(n, tight)),
{
    lemma_node_events_scan(n, tight, Seq::empty());
}

/// How many start events of the given tag kind a sequence holds, the kind
/// being identified by its closing counterpart.
pub open spec fn count_starts(events: Seq<EventModel>, kind: TagEnd) -> nat
    decreases events.len(),
{
    if events.len() == 0 {
        0
    } else {
        (match events[0] {
            EventModel::Start(t) => if t.end() == kind {
                1nat
            } else {
                0nat
            },
            _ => 0nat,
        }) + count_starts(events.drop_first(), kind)
    }
}

/// How many end events of the given kind a sequence holds.
pub open spec fn count_ends(events: Seq<EventModel>, kind: TagEnd) -> nat
    decreases events.len(),
{
    if events.len() == 0 {
        0
    } else {
        (match events[0] {
            EventModel::End(e) => if e == kind {
                1nat
            } else {
                0nat
            },
            _ => 0nat,
        }) + count_ends(events.drop_first(), kind)
    }
}

proof fn lemma_counts_append(a: Seq<EventModel>, b: Seq<EventModel>, kind: TagEnd)
    ensures
        count_starts(a + b, kind) == count_starts(a, kind) + count_starts(b, kind),
        count_ends(a + b, kind) == count_ends(a, kind) + count_ends(b, kind),
    decreases a.len(),
{
    if a.len() == 0 {
        assert(a + b =~= b);
    } else {
        assert((a + b)[0] == a[0]);
        assert((a + b).drop_first() =~= a.drop_first() + b);
        lemma_counts_append(a.drop_first(), b, kind);
    }
}

proof fn lemma_counts_single(e: EventModel, kind: TagEnd)
    ensures
        count_starts(seq![e], kind) == (match e {
            EventModel::Start(t) => if t.end() == kind {
                1nat
            } else {
                0nat
            },
            _ => 0nat,
        }),
        count_ends(seq![e], kind) == (match e {
            EventModel::End(x) => if x == kind {
                1nat
            } else {
                0nat
            },
            _ => 0nat,
        }),
{
    assert(seq![e][0] == e);
    assert(seq![e].drop_first() =~= Seq::<EventModel>::empty());
    assert(count_starts(Seq::<EventModel>::empty(), kind) == 0);
    assert(count_ends(Seq::<EventModel>::empty(), kind) == 0);
}

/// Count balance of one plain container: its own start and end pair up, and
/// its children balance by induction.
proof fn lemma_counts_container(
    n: MdNode,
    tight: bool,
    kind: TagEnd,
    tag: TagModel,
    children: Seq<MdNode>,
)
    requires
        node_events(n, tight) == seq![EventModel::Start(tag)] + children_events(children, tight)
            + seq![EventModel::End(tag.end())],
        children_size(children) < node_size(n),
    ensures
        count_starts(node_events(n, tight), kind) == count_ends(node_events(n, tight), kind),
    decreases node_size(n), 0nat,
{
    lemma_children_events_counts(children, tight, kind);
    lemma_counts_single(EventModel::Start(tag), kind);
    lemma_counts_single(EventModel::End(tag.end()), kind);
    lemma_counts_append(seq![EventModel::Start(tag)], children_events(children, tight), kind);
    lemma_counts_append(
        seq![EventModel::Start(tag)] + children_events(children, tight),
        seq![EventModel::End(tag.end())],
        kind,
    );
}

/// Structural balance, counted: in one node's event stream, each tag kind's
/// start events are exactly as many as its end events.
#[verifier::rlimit(100)]
#[verifier::spinoff_prover]
pub proof fn lemma_node_events_counts(n: MdNode, tight: bool, kind: TagEnd)
    ensures
        count_starts(node_events(n, tight), kind) == count_ends(node_events(n, tight), kind),
    decreases node_size(n), 1nat,
{
    let events = node_events(n, tight);
    match n {
        MdNode::Root { children } => {
            lemma_children_events_counts(children@, tight, kind);
        },
        MdNode::Unsupported { children } => {
            lemma_children_events_counts(children@, tight, kind);
        },
        MdNode::Paragraph { children } => {
            if tight {
                lemma_children_events_counts(children@, tight, kind);
            } else {
                crate::tree::lemma_node_size_at_least(n);
                lemma_counts_container(n, tight, kind, TagModel::Paragraph, children@);
            }
        },
        MdNode::Heading { depth, children } => {
            crate::tree::lemma_node_size_at_least(n);
            lemma_counts_container(n, tight, kind, crate::tree::spec_node_tag(n), children@);
        },
        MdNode::Blockquote { children } => {
            crate::tree::lemma_node_size_at_least(n);
            lemma_counts_container(n, tight, kind, crate::tree::spec_node_tag(n), children@);
        },
        MdNode::List { ordered, start, children } => {
            crate::tree::lemma_node_size_at_least(n);
            lemma_counts_container(n, tight, kind, crate::tree::spec_node_tag(n), children@);
        },
        MdNode::FootnoteDefinition { identifier, children } => {
            crate::tree::lemma_node_size_at_least(n);
            lemma_counts_container(n, tight, kind, crate::tree::spec_node_tag(n), children@);
        },
        MdNode::Emphasis { children } => {
            crate::tree::lemma_node_size_at_least(n);
            lemma_counts_container(n, tight, kind, crate::tree::spec_node_tag(n), children@);
        },
        MdNode::Strong { children } => {
            crate::tree::lemma_node_size_at_least(n);
            lemma_counts_container(n, tight, kind, crate::tree::spec_node_tag(n), children@);
        },
        MdNode::Delete { children } => {
            crate::tree::lemma_node_size_at_least(n);
            lemma_counts_container(n, tight, kind, crate::tree::spec_node_tag(n), children@);
        },
        MdNode::Link { url, title, children } => {
            crate::tree::lemma_node_size_at_least(n);
            lemma_counts_container(n, tight, kind, crate::tree::spec_node_tag(n), children@);
        },
        MdNode::LinkReference { identifier, children } => {
            crate::tree::lemma_node_size_at_least(n);
            lemma_counts_container(n, tight, kind, crate::tree::spec_node_tag(n), children@);
        },
        MdNode::Table { align, children } => {
            crate::tree::lemma_node_size_at_least(n);
            lemma_counts_container(n, tight, kind, crate::tree::spec_node_tag(n), children@);
        },
        MdNode::TableRow { children } => {
            crate::tree::lemma_node_size_at_least(n);
            lemma_counts_container(n, tight, kind, crate::tree::spec_node_tag(n), children@);
        },
        MdNode::TableCell { children } => {
            crate::tree::lemma_node_size_at_least(n);
            lemma_counts_container(n, tight, kind, crate::tree::spec_node_tag(n), children@);
        },
        MdNode::ListItem { checked, spread, children } => {
            let markers = match checked {
                Some(done) => seq![EventModel::TaskListMarker(done)],
                None => Seq::<EventModel>::empty(),
            };
            lemma_children_events_counts(children@, tight || !spread, kind);
            if checked is Some {
                lemma_counts_single(markers[0], kind);
                assert(markers =~= seq![markers[0]]);
            }
            lemma_counts_single(EventModel::Start(TagModel::Item), kind);
            lemma_counts_single(EventModel::End(TagEnd::Item), kind);
            lemma_counts_append(markers, children_events(children@, tight || !spread), kind);
            lemma_counts_append(
                seq![EventModel::Start(TagModel::Item)],
                markers + children_events(children@, tight || !spread),
                kind,
            );
            lemma_counts_append(
                seq![EventModel::Start(TagModel::Item)] + (markers + children_events(
                    children@,
                    tight || !spread,
                )),
                seq![EventModel::End(TagEnd::Item)],
                kind,
            );
            assert(events =~= seq![EventModel::Start(TagModel::Item)] + (markers
                + children_events(children@, tight || !spread)) + seq![
                EventModel::End(TagEnd::Item),
            ]);
        },
        MdNode::Code { lang, value } => {
            let kindm = match lang {
                Some(l) => crate::event::CodeBlockKindModel::Fenced(l@),
                None => crate::event::CodeBlockKindModel::Indented,
            };
            let tag = TagModel::CodeBlock(kindm);
            lemma_counts_single(EventModel::Start(tag), kind);
            lemma_counts_single(EventModel::Text(value@), kind);
            lemma_counts_single(EventModel::End(TagEnd::CodeBlock), kind);
            lemma_counts_append(seq![EventModel::Start(tag)], seq![EventModel::Text(value@)], kind);
            lemma_counts_append(
                seq![EventModel::Start(tag)] + seq![EventModel::Text(value@)],
                seq![EventModel::End(TagEnd::CodeBlock)],
                kind,
            );
            assert(events =~= seq![EventModel::Start(tag)] + seq![EventModel::Text(value@)] + seq![
                EventModel::End(TagEnd::CodeBlock),
            ]);
        },
        MdNode::Image { url, title, alt } => {
            lemma_counts_image(n, tight, kind);
        },
        MdNode::ImageReference { identifier, alt } => {
            lemma_counts_image(n, tight, kind);
        },
        _ => {
            assert(events.len() == 1);
            lemma_counts_single(events[0], kind);
            assert(events =~= seq![events[0]]);
            assert(!(events[0] is Start) && !(events[0] is End));
        },
    }
}

proof fn lemma_counts_image(n: MdNode, tight: bool, kind: TagEnd)
    requires
        n is Image || n is ImageReference,
    ensures
        count_starts(node_events(n, tight), kind) == count_ends(node_events(n, tight), kind),
{
    let events = node_events(n, tight);
    let tag = match events[0] {
        EventModel::Start(t) => t,
        _ => TagModel::Paragraph,
    };
    let inner = events.subrange(1, events.len() - 1);
    assert(events =~= seq![EventModel::Start(tag)] + inner + seq![EventModel::End(TagEnd::Image)]);
    assert(tag.end() == TagEnd::Image);
    lemma_counts_single(EventModel::Start(tag), kind);
    lemma_counts_single(EventModel::End(TagEnd::Image), kind);
    if inner.len() > 0 {
        assert(inner =~= seq![inner[0]]);
        lemma_counts_single(inner[0], kind);
        assert(!(inner[0] is Start) && !(inner[0] is End));
    }
    lemma_counts_append(seq![EventModel::Start(tag)], inner, kind);
    lemma_counts_append(seq![EventModel::Start(tag)] + inner, seq![
        EventModel::End(TagEnd::Image),
    ], kind);
}

/// Count balance of a node list's event stream.
pub proof fn lemma_children_events_counts(s: Seq<MdNode>, tight: bool, kind: TagEnd)
    ensures
        count_starts(children_events(s, tight), kind) == count_ends(children_events(s, tight), kind),
    decreases children_size(s), s.len() + 2nat,
{
    if s.len() == 0 {
    } else {
        crate::tree::lemma_node_size_at_least(s[0]);
        lemma_node_events_counts(s[0], tight, kind);
        lemma_children_events_counts(s.drop_first(), tight, kind);
        lemma_counts_append(
            node_events(s[0], tight),
            children_events(s.drop_first(), tight),
            kind,
        );
    }
}

/// Whether an event opens or closes a paragraph.
pub open spec fn is_paragraph_event(e: EventModel) -> bool {
    e == EventModel::Start(TagModel::Paragraph) || e == EventModel::End(TagEnd::Paragraph)
}

/// Whether any event of a sequence opens or closes a paragraph.
pub open spec fn has_paragraph_event(events: Seq<EventModel>) -> bool {
    exists|i: int| 0 <= i < events.len() && is_paragraph_event(#[trigger] events[i])
}

proof fn lemma_no_paragraph_append(a: Seq<EventModel>, b: Seq<EventModel>)
    requires
        !has_paragraph_event(a),
        !has_paragraph_event(b),
    ensures
        !has_paragraph_event(a + b),
{
    assert forall|i: int| 0 <= i < (a + b).len() implies !is_paragraph_event(#[trigger] (a
        + b)[i]) by {
        if i < a.len() {
            assert((a + b)[i] == a[i]);
        } else {
            assert((a + b)[i] == b[i - a.len()]);
        }
    }
}

/// Inside a tight context no paragraph events are emitted anywhere in the
/// subtree: every paragraph is transparent.
#[verifier::rlimit(80)]
#[verifier::spinoff_prover]
pub proof fn lemma_tight_suppresses_paragraphs(n: MdNode)
    ensures
        !has_paragraph_event(node_events(n, true)),
    decreases node_size(n), 1nat,
{
    let events = node_events(n, true);
    match n {
        MdNode::Root { children } => {
            lemma_children_tight_suppresses_paragraphs(children@);
        },
        MdNode::Unsupported { children } => {
            lemma_children_tight_suppresses_paragraphs(children@);
        },
        MdNode::Paragraph { children } => {
            lemma_children_tight_suppresses_paragraphs(children@);
        },
        MdNode::Heading { depth, children } => {
            lemma_container_tight(n, crate::tree::spec_node_tag(n), children@);
        },
        MdNode::Blockquote { children } => {
            lemma_container_tight(n, crate::tree::spec_node_tag(n), children@);
        },
        MdNode::List { ordered, start, children } => {
            lemma_container_tight(n, crate::tree::spec_node_tag(n), children@);
        },
        MdNode::FootnoteDefinition { identifier, children } => {
            lemma_container_tight(n, crate::tree::spec_node_tag(n), children@);
        },
        MdNode::Emphasis { children } => {
            lemma_container_tight(n, crate::tree::spec_node_tag(n), children@);
        },
        MdNode::Strong { children } => {
            lemma_container_tight(n, crate::tree::spec_node_tag(n), children@);
        },
        MdNode::Delete { children } => {
            lemma_container_tight(n, crate::tree::spec_node_tag(n), children@);
        },
        MdNode::Link { url, title, children } => {
            lemma_container_tight(n, crate::tree::spec_node_tag(n), children@);
        },
        MdNode::LinkReference { identifier, children } => {
            lemma_container_tight(n, crate::tree::spec_node_tag(n), children@);
        },
        MdNode::Table { align, children } => {
            lemma_container_tight(n, crate::tree::spec_node_tag(n), children@);
        },
        MdNode::TableRow { children } => {
            lemma_container_tight(n, crate::tree::spec_node_tag(n), children@);
        },
        MdNode::TableCell { children } => {
            lemma_container_tight(n, crate::tree::spec_node_tag(n), children@);
        },
        MdNode::ListItem { checked, spread, children } => {
            let markers = match checked {
                Some(done) => seq![EventModel::TaskListMarker(done)],
                None => Seq::<EventModel>::empty(),
            };
            lemma_children_tight_suppresses_paragraphs(children@);
            assert(!has_paragraph_event(seq![EventModel::Start(TagModel::Item)]));
            assert(!has_paragraph_event(markers));
            assert(!has_paragraph_event(seq![EventModel::End(TagEnd::Item)]));
            lemma_no_paragraph_append(markers, children_events(children@, true));
            lemma_no_paragraph_append(
                seq![EventModel::Start(TagModel::Item)],
                markers + children_events(children@, true),
            );
            lemma_no_paragraph_append(
                seq![EventModel::Start(TagModel::Item)] + (markers + children_events(
                    children@,
                    true,
                )),
                seq![EventModel::End(TagEnd::Item)],
            );
            assert(events =~= seq![EventModel::Start(TagModel::Item)] + (markers
                + children_events(children@, true)) + seq![EventModel::End(TagEnd::Item)]);
        },
        _ => {
            assert forall|i: int| 0 <= i < events.len() implies !is_paragraph_event(
                #[trigger] events[i],
            ) by {}
        },
    }
}

proof fn lemma_container_tight(n: MdNode, tag: TagModel, children: Seq<MdNode>)
    requires
        node_events(n, true) == seq![EventModel::Start(tag)] + children_events(children, true)
            + seq![EventModel::End(tag.end())],
        tag != TagModel::Paragraph,
        tag.end() != TagEnd::Paragraph,
        children_size(children) < node_size(n),
    ensures
        !has_paragraph_event(node_events(n, true)),
    decreases node_size(n), 0nat,
{
    lemma_children_tight_suppresses_paragraphs(children);
    assert(!has_paragraph_event(seq![EventModel::Start(tag)]));
    assert(!has_paragraph_event(seq![EventModel::End(tag.end())]));
    lemma_no_paragraph_append(seq![EventModel::Start(tag)], children_events(children, true));
    lemma_no_paragraph_append(
        seq![EventModel::Start(tag)] + children_events(children, true),
        seq![EventModel::End(tag.end())],
    );
}

proof fn lemma_children_tight_suppresses_paragraphs(s: Seq<MdNode>)
    ensures
        !has_paragraph_event(children_events(s, true)),
    decreases children_size(s), s.len() + 2nat,
{
    if s.len() == 0 {
    } else {
        crate::tree::lemma_node_size_at_least(s[0]);
        lemma_tight_suppresses_paragraphs(s[0]);
        lemma_children_tight_suppresses_paragraphs(s.drop_first());
        lemma_no_paragraph_append(
            node_events(s[0], true),
            children_events(s.drop_first(), true),
        );
    }
}

/// The tight-list law: a list all of whose items are tight (no blank line
/// after any item) emits no paragraph start or end anywhere in its items.
pub proof fn lemma_tight_list_suppresses_paragraphs(
    ordered: bool,
    start: Option<u32>,
    children: Vec<MdNode>,
    tight: bool,
)
    requires
        forall|i: int|
            0 <= i < children@.len() ==> ((#[trigger] children@[i]) matches MdNode::ListItem {
                spread, .. } && !spread),
    ensures
        !has_paragraph_event(node_events(MdNode::List { ordered, start, children }, tight)),
{
    let n = MdNode::List { ordered, start, children };
    let tag = crate::tree::spec_node_tag(n);
    lemma_children_all_tight_items(children@, tight);
    assert(!has_paragraph_event(seq![EventModel::Start(tag)]));
    assert(!has_paragraph_event(seq![EventModel::End(TagEnd::List(ordered))]));
    lemma_no_paragraph_append(seq![EventModel::Start(tag)], children_events(children@, tight));
    lemma_no_paragraph_append(
        seq![EventModel::Start(tag)] + children_events(children@, tight),
        seq![EventModel::End(TagEnd::List(ordered))],
    );
    assert(node_events(n, tight) =~= seq![EventModel::Start(tag)] + children_events(
        children@,
        tight,
    ) + seq![EventModel::End(TagEnd::List(ordered))]);
}

proof fn lemma_children_all_tight_items(s: Seq<MdNode>, tight: bool)
    requires
        forall|i: int|
            0 <= i < s.len() ==> ((#[trigger] s[i]) matches MdNode::ListItem { spread, .. }
                && !spread),
    ensures
        !has_paragraph_event(children_events(s, tight)),
    decreases s.len(),
{
    if s.len() == 0 {
    } else {
        let item = s[0];
        match item {
            MdNode::ListItem { checked, spread, children } => {
                let markers = match checked {
                    Some(done) => seq![EventModel::TaskListMarker(done)],
                    None => Seq::<EventModel>::empty(),
                };
                lemma_children_tight_suppresses_paragraphs(children@);
                assert(tight || !spread);
                lemma_no_paragraph_append(markers, children_events(children@, true));
                lemma_no_paragraph_append(
                    seq![EventModel::Start(TagModel::Item)],
                    markers + children_events(children@, true),
                );
                lemma_no_paragraph_append(
                    seq![EventModel::Start(TagModel::Item)] + (markers + children_events(
                        children@,
                        true,
                    )),
                    seq![EventModel::End(TagEnd::Item)],
                );
                assert(node_events(item, tight) =~= seq![EventModel::Start(TagModel::Item)] + (
                markers + children_events(children@, true)) + seq![
                    EventModel::End(TagEnd::Item),
                ]);
            },
            _ => {
                assert(false);
            },
        }
        lemma_children_all_tight_items(s.drop_first(), tight);
        lemma_no_paragraph_append(
            node_events(s[0], tight),
            children_events(s.drop_first(), tight),
        );
    }
}

proof fn lemma_contains_append_left(a: Seq<EventModel>, b: Seq<EventModel>, x: EventModel)
    requires
        a.contains(x),
    ensures
        (a + b).contains(x),
{
    let i = choose|i: int| 0 <= i < a.len() && a[i] == x;
    assert((a + b)[i] == x);
}

proof fn lemma_contains_append_right(a: Seq<EventModel>, b: Seq<EventModel>, x: EventModel)
    requires
        b.contains(x),
    ensures
        (a + b).contains(x),
{
    let i = choose|i: int| 0 <= i < b.len() && b[i] == x;
    assert((a + b)[a.len() + i] == x);
}

proof fn lemma_children_events_mem(s: Seq<MdNode>, tight: bool, k: int, x: EventModel)
    requires
        0 <= k < s.len(),
        node_events(s[k], tight).contains(x),
    ensures
        children_events(s, tight).contains(x),
    decreases k,
{
    if k == 0 {
        lemma_contains_append_left(node_events(s[0], tight), children_events(s.drop_first(), tight), x);
    } else {
        assert(s.drop_first()[k - 1] == s[k]);
        lemma_children_events_mem(s.drop_first(), tight, k - 1, x);
        lemma_contains_append_right(
            node_events(s[0], tight),
            children_events(s.drop_first(), tight),
            x,
        );
    }
}

/// The loose-list law: outside a tight context, a loose item (one with a
/// blank line, so `spread` holds) whose children include a paragraph makes
/// the list emit that paragraph's start event.
pub proof fn lemma_loose_list_keeps_paragraphs(
    ordered: bool,
    start: Option<u32>,
    children: Vec<MdNode>,
    i: int,
    j: int,
)
    requires
        0 <= i < children@.len(),
        (children@[i] matches MdNode::ListItem { spread, .. } && spread),
        0 <= j < crate::tree::spec_node_children(children@[i]).len(),
        crate::tree::spec_node_children(children@[i])[j] is Paragraph,
    ensures
        node_events(MdNode::List { ordered, start, children }, false).contains(
            EventModel::Start(TagModel::Paragraph),
        ),
{
    let n = MdNode::List { ordered, start, children };
    let tag = crate::tree::spec_node_tag(n);
    let x = EventModel::Start(TagModel::Paragraph);
    let item = children@[i];
    match item {
        MdNode::ListItem { checked, spread, children: item_children } => {
            let para = item_children@[j];
            match para {
                MdNode::Paragraph { children: pc } => {
                    assert(node_events(para, false) =~= seq![x] + children_events(pc@, false)
                        + seq![EventModel::End(TagEnd::Paragraph)]);
                    assert(node_events(para, false)[0] == x);
                    assert(node_events(para, false).contains(x));
                },
                _ => {
                    assert(false);
                },
            }
            lemma_children_events_mem(item_children@, false, j, x);
            let markers = match checked {
                Some(done) => seq![EventModel::TaskListMarker(done)],
                None => Seq::<EventModel>::empty(),
            };
            lemma_contains_append_right(markers, children_events(item_children@, false), x);
            lemma_contains_append_right(
                seq![EventModel::Start(TagModel::Item)],
                markers + children_events(item_children@, false),
                x,
            );
            lemma_contains_append_left(
                seq![EventModel::Start(TagModel::Item)] + (markers + children_events(
                    item_children@,
                    false,
                )),
                seq![EventModel::End(TagEnd::Item)],
                x,
            );
            assert(node_events(item, false) =~= seq![EventModel::Start(TagModel::Item)] + (markers
                + children_events(item_children@, false)) + seq![EventModel::End(TagEnd::Item)]);
        },
        _ => {
            assert(false);
        },
    }
    lemma_children_events_mem(children@, false, i, x);
    lemma_contains_append_right(seq![EventModel::Start(tag)], children_events(children@, false), x);
    lemma_contains_append_left(
        seq![EventModel::Start(tag)] + children_events(children@, false),
        seq![EventModel::End(TagEnd::List(ordered))],
        x,
    );
    assert(node_events(n, false) =~= seq![EventModel::Start(tag)] + children_events(
        children@,
        false,
    ) + seq![EventModel::End(TagEnd::List(ordered))]);
}

} // verus!
