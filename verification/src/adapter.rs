//! The tree-to-event adapter: a pull-based iterator that flattens a parse
//! tree into events with an explicit frame stack in place of recursion.
//!
//! Each frame records one in-progress node: a transparent frame visits its
//! children and emits nothing of its own; a container frame visits its
//! children and then emits the closing event it carries. Start events and
//! post-start markers are queued in a small output queue when the frame is
//! created, so each pull is one O(1)-ish step and the tree is never expanded
//! ahead of need. Pulling the iterator to exhaustion is proved to yield
//! exactly `node_events` of the tree it was built from.

use vstd::prelude::*;

use std::collections::VecDeque;

use crate::event::CodeBlockKind;
use crate::event::Event;
use crate::event::EventModel;
use crate::event::HeadingLevel;
use crate::event::LinkType;
use crate::event::Tag;
use crate::event::TagEnd;
use crate::event::TagModel;
use crate::slug::heading_slug_of_text;
use crate::tree::MdNode;
use crate::tree::children_events;
use crate::tree::children_size;
use crate::tree::collect_node_text;
use crate::tree::node_events;
use crate::tree::node_size;
use crate::tree::node_text;
use crate::tree::nodes_text;
use crate::tree::spec_list_start;

verus! {

/// One in-progress node on the adapter's explicit stack.
enum Frame {
    /// A pass-through container: children are visited, nothing is emitted
    /// for the frame itself.
    Transparent { children: Vec<MdNode> },
    /// A container whose start has been queued: children are visited, then
    /// the carried end event is emitted. `tight` records whether this frame
    /// raised the tight-list depth.
    Container { end: TagEnd, children: Vec<MdNode>, tight: bool },
}

impl Frame {
    /// The children this frame has not visited yet.
    pub closed spec fn children_seq(self) -> Seq<MdNode> {
        match self {
            Frame::Transparent { children } => children@,
            Frame::Container { children, .. } => children@,
        }
    }

    /// Whether this frame raised the tight-list depth.
    pub closed spec fn is_tight(self) -> bool {
        match self {
            Frame::Container { tight, .. } => tight,
            _ => false,
        }
    }

    /// The events this frame will still produce, given whether any enclosing
    /// frame is tight.
    pub closed spec fn events(self, tight_below: bool) -> Seq<EventModel> {
        match self {
            Frame::Transparent { children } => children_events(children@, tight_below),
            Frame::Container { end, children, tight } => children_events(
                children@,
                tight_below || tight,
            ) + seq![EventModel::End(end)],
        }
    }

    /// The termination measure of this frame.
    pub closed spec fn measure(self) -> nat {
        1 + children_size(self.children_seq())
    }
}

/// How many frames of the stack raised the tight-list depth.
spec fn count_tight(frames: Seq<Frame>) -> nat
    decreases frames.len(),
{
    if frames.len() == 0 {
        0
    } else {
        count_tight(frames.drop_last()) + if frames.last().is_tight() {
            1nat
        } else {
            0nat
        }
    }
}

/// The events the whole stack will still produce, topmost frame first.
spec fn stack_events(frames: Seq<Frame>) -> Seq<EventModel>
    decreases frames.len(),
{
    if frames.len() == 0 {
        Seq::empty()
    } else {
        frames.last().events(count_tight(frames.drop_last()) > 0) + stack_events(
            frames.drop_last(),
        )
    }
}

/// The summed termination measure of the stack.
spec fn stack_measure(frames: Seq<Frame>) -> nat
    decreases frames.len(),
{
    if frames.len() == 0 {
        0
    } else {
        stack_measure(frames.drop_last()) + frames.last().measure()
    }
}

/// The models of queued events.
spec fn pending_models(s: Seq<Event>) -> Seq<EventModel> {
    Seq::new(s.len(), |i: int| s[i].model())
}

proof fn lemma_pending_push(s: Seq<Event>, e: Event)
    ensures
        pending_models(s.push(e)) == pending_models(s) + seq![e.model()],
{
    assert(pending_models(s.push(e)) =~= pending_models(s) + seq![e.model()]);
}

proof fn lemma_stack_push(frames: Seq<Frame>, f: Frame)
    ensures
        stack_events(frames.push(f)) == f.events(count_tight(frames) > 0) + stack_events(frames),
        count_tight(frames.push(f)) == count_tight(frames) + if f.is_tight() {
            1nat
        } else {
            0nat
        },
        stack_measure(frames.push(f)) == stack_measure(frames) + f.measure(),
{
    assert(frames.push(f).drop_last() =~= frames);
    assert(frames.push(f).last() == f);
}

proof fn lemma_count_tight_le_len(frames: Seq<Frame>)
    ensures
        count_tight(frames) <= frames.len(),
    decreases frames.len(),
{
    if frames.len() > 0 {
        lemma_count_tight_le_len(frames.drop_last());
    }
}

/// The lazy tree-to-event iterator: an explicit stack of frames plus a small
/// queue of events ready to be yielded.
pub struct MarkdownRsEventIter {
    stack: Vec<Frame>,
    pending_events: VecDeque<Event>,
    tight_list_depth: usize,
}

impl MarkdownRsEventIter {
    /// The adapter's invariant: the tight-list depth counts the frames that
    /// raised it.
    pub closed spec fn wf(self) -> bool {
        self.tight_list_depth == count_tight(self.stack@)
    }

    /// The models of the events this iterator will still yield, in order.
    pub closed spec fn remaining(self) -> Seq<EventModel> {
        pending_models(self.pending_events@) + stack_events(self.stack@)
    }

    /// The termination measure of the whole iterator.
    pub closed spec fn measure(self) -> nat {
        self.pending_events@.len() + stack_measure(self.stack@)
    }

    /// Builds the iterator for a source text: the external parser supplies
    /// the tree, and the iterator yields exactly the parsed document's
    /// canonical event sequence. Success comes exactly when the parser
    /// accepts the text.
    pub fn new(input: &str) -> (r: Result<Self, crate::MarkflowError>)
        ensures
            r is Ok <==> crate::md::md_accepts(input@, true, true, true),
            match r {
                Ok(it) => it.wf() && it.remaining() == crate::tree::model_events(
                    crate::md::md_doc(input@, true, true, true),
                    false,
                ),
                Err(e) => e is MarkdownAdapter,
            },
    {
        match crate::md::parse_document(input) {
            Ok(tree) => {
                let ghost t = tree;
                let it = Self::from_tree(tree);
                proof {
                    assert(it.remaining() == node_events(t, false));
                    crate::tree::lemma_model_events_agree(t, false);
                }
                Ok(it)
            },
            Err(e) => Err(e),
        }
    }

    /// Builds the iterator for a parse tree: pulled to exhaustion it yields
    /// exactly the canonical event sequence of the tree.
    pub fn from_tree(tree: MdNode) -> (r: Self)
        ensures
            r.wf(),
            r.remaining() == node_events(tree, false),
    {
        let mut it = MarkdownRsEventIter {
            stack: Vec::new(),
            pending_events: VecDeque::new(),
            tight_list_depth: 0,
        };
        proof {
            assert(count_tight(it.stack@) == 0);
        }
        it.push_node(tree);
        proof {
            assert(pending_models(Seq::<Event>::empty()) =~= Seq::<EventModel>::empty());
            assert(it.remaining() =~= node_events(tree, false));
        }
        it
    }

    /// Yields the next event: the head of the canonical sequence of what
    /// remains, or nothing once that sequence is exhausted.
    pub fn next(&mut self) -> (r: Option<Event>)
        requires
            old(self).wf(),
        ensures
            final(self).wf(),
            match r {
                Some(e) => old(self).remaining() == seq![e.model()] + final(self).remaining(),
                None => {
                    &&& old(self).remaining() == Seq::<EventModel>::empty()
                    &&& final(self).remaining() == Seq::<EventModel>::empty()
                },
            },
    {
        loop
            invariant
                self.wf(),
                self.remaining() == old(self).remaining(),
            decreases self.measure(),
        {
            let ghost pend0 = self.pending_events@;
            let ghost stack0 = self.stack@;
            if self.pending_events.len() > 0 {
                let e = match self.pending_events.pop_front() {
                    Some(e) => e,
                    None => {
                        proof {
                            assert(false);
                        }
                        return None;
                    },
                };
                proof {
                    assert(pending_models(self.pending_events@) =~= pending_models(
                        pend0,
                    ).drop_first());
                    assert(pending_models(pend0)[0] == e.model());
                    assert(pending_models(pend0) + stack_events(stack0) =~= seq![e.model()] + (
                    pending_models(self.pending_events@) + stack_events(stack0)));
                }
                return Some(e);
            }
            if self.stack.len() == 0 {
                proof {
                    assert(pending_models(pend0) =~= Seq::<EventModel>::empty());
                    assert(self.remaining() =~= Seq::<EventModel>::empty());
                }
                return None;
            }
            let f = match self.stack.pop() {
                Some(f) => f,
                None => {
                    proof {
                        assert(false);
                    }
                    return None;
                },
            };
            let ghost f0 = f;
            let ghost rest = self.stack@;
            proof {
                assert(stack0.drop_last() =~= rest);
                assert(stack0.last() == f0);
            }
            let ghost below = count_tight(rest) > 0;
            match f {
                Frame::Transparent { mut children } => {
                    if children.len() > 0 {
                        let ghost ch0 = children@;
                        let child = children.remove(0);
                        proof {
                            assert(children@ =~= ch0.drop_first());
                            assert(children_events(ch0, below) == node_events(child, below)
                                + children_events(children@, below));
                            crate::tree::lemma_node_size_at_least(child);
                        }
                        let newf = Frame::Transparent { children };
                        let ghost nf0 = newf;
                        self.stack.push(newf);
                        proof {
                            lemma_stack_push(rest, nf0);
                            assert(count_tight(self.stack@) == count_tight(stack0));
                            assert(pending_models(pend0) =~= Seq::<EventModel>::empty());
                        }
                        self.push_node(child);
                        proof {
                            assert(self.remaining() =~= old(self).remaining());
                        }
                    } else {
                        proof {
                            assert(children_events(f0.children_seq(), below) =~= Seq::<
                                EventModel,
                            >::empty());
                            assert(self.remaining() =~= old(self).remaining());
                        }
                    }
                },
                Frame::Container { end, mut children, tight } => {
                    if children.len() > 0 {
                        let ghost ch0 = children@;
                        let child = children.remove(0);
                        proof {
                            assert(children@ =~= ch0.drop_first());
                            assert(children_events(ch0, below || tight) == node_events(
                                child,
                                below || tight,
                            ) + children_events(children@, below || tight));
                            crate::tree::lemma_node_size_at_least(child);
                        }
                        let newf = Frame::Container { end, children, tight };
                        let ghost nf0 = newf;
                        self.stack.push(newf);
                        proof {
                            lemma_stack_push(rest, nf0);
                            assert(count_tight(self.stack@) == count_tight(stack0));
                            assert((below || tight) == (count_tight(self.stack@) > 0));
                            assert(pending_models(pend0) =~= Seq::<EventModel>::empty());
                        }
                        self.push_node(child);
                        proof {
                            assert(self.remaining() =~= old(self).remaining());
                        }
                    } else {
                        if tight {
                            proof {
                                assert(count_tight(stack0) >= 1);
                            }
                            self.tight_list_depth = self.tight_list_depth - 1;
                        }
                        let e = Event::End(end);
                        proof {
                            assert(children_events(f0.children_seq(), below || tight) =~= Seq::<
                                EventModel,
                            >::empty());
                            assert(f0.events(below) =~= seq![EventModel::End(end)]);
                            assert(pending_models(pend0) =~= Seq::<EventModel>::empty());
                            assert(e.model() == EventModel::End(end));
                            assert(old(self).remaining() =~= seq![e.model()]
                                + self.remaining());
                        }
                        return Some(e);
                    }
                },
            }
        }
    }

    /// Queues the events of one node: its leaf events, or its start event,
    /// post-start markers and a frame for its children.
    #[verifier::rlimit(100)]
    #[verifier::spinoff_prover]
    fn push_node(&mut self, node: MdNode)
        requires
            old(self).wf(),
        ensures
            final(self).wf(),
            final(self).remaining() == pending_models(old(self).pending_events@) + node_events(
                node,
                count_tight(old(self).stack@) > 0,
            ) + stack_events(old(self).stack@),
            final(self).measure() + 1 <= old(self).measure() + node_size(node),
    {
        let ghost node0 = node;
        let ghost t = count_tight(old(self).stack@) > 0;
        let tight_now = self.tight_list_depth > 0;
        proof {
            assert(tight_now == t);
        }
        match node {
            MdNode::Root { children } => {
                self.push_transparent(children);
                proof {
                    assert(self.remaining() =~= pending_models(old(self).pending_events@)
                        + node_events(node0, t) + stack_events(old(self).stack@));
                }
            },
            MdNode::Unsupported { children } => {
                self.push_transparent(children);
                proof {
                    assert(self.remaining() =~= pending_models(old(self).pending_events@)
                        + node_events(node0, t) + stack_events(old(self).stack@));
                }
            },
            MdNode::Paragraph { children } => {
                if tight_now {
                    self.push_transparent(children);
                } else {
                    self.push_container(Tag::Paragraph, None, TagEnd::Paragraph, children, false);
                }
                proof {
                    assert(self.remaining() =~= pending_models(old(self).pending_events@)
                        + node_events(node0, t) + stack_events(old(self).stack@));
                }
            },
            MdNode::Heading { depth, children } => {
                let mut text = String::new();
                let ghost ch = children@;
                collect_heading_text(&children, &mut text);
                proof {
                    assert(text@ =~= nodes_text(ch));
                }
                let id = heading_slug_of_text(text.as_str());
                let level = match HeadingLevel::from_depth(depth as usize) {
                    Some(level) => level,
                    None => HeadingLevel::H6,
                };
                let tag = Tag::Heading { level, id, classes: Vec::new(), attrs: Vec::new() };
                proof {
                    assert(level == crate::tree::spec_level_of_depth(depth));
                    assert(tag.model() =~= (TagModel::Heading {
                        level: crate::tree::spec_level_of_depth(depth),
                        id: crate::slug::spec_heading_slug(nodes_text(ch)),
                        classes: Seq::empty(),
                        attrs: Seq::empty(),
                    }));
                }
                self.push_container(tag, None, TagEnd::Heading(level), children, false);
                proof {
                    assert(self.remaining() =~= pending_models(old(self).pending_events@)
                        + node_events(node0, t) + stack_events(old(self).stack@));
                }
            },
            MdNode::Blockquote { children } => {
                self.push_container(Tag::BlockQuote, None, TagEnd::BlockQuote, children, false);
                proof {
                    assert(self.remaining() =~= pending_models(old(self).pending_events@)
                        + node_events(node0, t) + stack_events(old(self).stack@));
                }
            },
            MdNode::List { ordered, start, children } => {
                let start_attr: Option<u64> = if ordered {
                    let raw: u32 = match start {
                        Some(v) => v,
                        None => 1,
                    };
                    if raw < 1 {
                        Some(1)
                    } else {
                        Some(raw as u64)
                    }
                } else {
                    None
                };
                proof {
                    assert(start_attr == spec_list_start(ordered, start));
                }
                self.push_container(
                    Tag::List(start_attr),
                    None,
                    TagEnd::List(ordered),
                    children,
                    false,
                );
                proof {
                    assert(self.remaining() =~= pending_models(old(self).pending_events@)
                        + node_events(node0, t) + stack_events(old(self).stack@));
                }
            },
            MdNode::ListItem { checked, spread, children } => {
                self.push_container(Tag::Item, checked, TagEnd::Item, children, !spread);
                proof {
                    assert(self.remaining() =~= pending_models(old(self).pending_events@)
                        + node_events(node0, t) + stack_events(old(self).stack@));
                }
            },
            MdNode::FootnoteDefinition { identifier, children } => {
                self.push_container(
                    Tag::FootnoteDefinition(identifier),
                    None,
                    TagEnd::FootnoteDefinition,
                    children,
                    false,
                );
                proof {
                    assert(self.remaining() =~= pending_models(old(self).pending_events@)
                        + node_events(node0, t) + stack_events(old(self).stack@));
                }
            },
            MdNode::Emphasis { children } => {
                self.push_container(Tag::Emphasis, None, TagEnd::Emphasis, children, false);
                proof {
                    assert(self.remaining() =~= pending_models(old(self).pending_events@)
                        + node_events(node0, t) + stack_events(old(self).stack@));
                }
            },
            MdNode::Strong { children } => {
                self.push_container(Tag::Strong, None, TagEnd::Strong, children, false);
                proof {
                    assert(self.remaining() =~= pending_models(old(self).pending_events@)
                        + node_events(node0, t) + stack_events(old(self).stack@));
                }
            },
            MdNode::Delete { children } => {
                self.push_container(
                    Tag::Strikethrough,
                    None,
                    TagEnd::Strikethrough,
                    children,
                    false,
                );
                proof {
                    assert(self.remaining() =~= pending_models(old(self).pending_events@)
                        + node_events(node0, t) + stack_events(old(self).stack@));
                }
            },
            MdNode::Link { url, title, children } => {
                let title_str = match title {
                    Some(t) => t,
                    None => String::new(),
                };
                let tag = Tag::Link {
                    link_type: LinkType::Inline,
                    dest_url: url,
                    title: title_str,
                    id: String::new(),
                };
                self.push_container(tag, None, TagEnd::Link, children, false);
                proof {
                    assert(self.remaining() =~= pending_models(old(self).pending_events@)
                        + node_events(node0, t) + stack_events(old(self).stack@));
                }
            },
            MdNode::LinkReference { identifier, children } => {
                let tag = Tag::Link {
                    link_type: LinkType::Reference,
                    dest_url: String::new(),
                    title: String::new(),
                    id: identifier,
                };
                self.push_container(tag, None, TagEnd::Link, children, false);
                proof {
                    assert(self.remaining() =~= pending_models(old(self).pending_events@)
                        + node_events(node0, t) + stack_events(old(self).stack@));
                }
            },
            MdNode::Table { align, children } => {
                self.push_container(Tag::Table(align), None, TagEnd::Table, children, false);
                proof {
                    assert(self.remaining() =~= pending_models(old(self).pending_events@)
                        + node_events(node0, t) + stack_events(old(self).stack@));
                }
            },
            MdNode::TableRow { children } => {
                self.push_container(Tag::TableRow, None, TagEnd::TableRow, children, false);
                proof {
                    assert(self.remaining() =~= pending_models(old(self).pending_events@)
                        + node_events(node0, t) + stack_events(old(self).stack@));
                }
            },
            MdNode::TableCell { children } => {
                self.push_container(Tag::TableCell, None, TagEnd::TableCell, children, false);
                proof {
                    assert(self.remaining() =~= pending_models(old(self).pending_events@)
                        + node_events(node0, t) + stack_events(old(self).stack@));
                }
            },
            MdNode::Code { lang, value } => {
                let kind = match lang {
                    Some(l) => CodeBlockKind::Fenced(l),
                    None => CodeBlockKind::Indented,
                };
                self.push_pending(Event::Start(Tag::CodeBlock(kind)));
                self.push_pending(Event::Text(value));
                self.push_pending(Event::End(TagEnd::CodeBlock));
                proof {
                    assert(self.remaining() =~= pending_models(old(self).pending_events@)
                        + node_events(node0, t) + stack_events(old(self).stack@));
                }
            },
            MdNode::Text { value } => {
                self.push_pending(Event::Text(value));
                proof {
                    assert(self.remaining() =~= pending_models(old(self).pending_events@)
                        + node_events(node0, t) + stack_events(old(self).stack@));
                }
            },
            MdNode::InlineCode { value } => {
                self.push_pending(Event::Code(value));
                proof {
                    assert(self.remaining() =~= pending_models(old(self).pending_events@)
                        + node_events(node0, t) + stack_events(old(self).stack@));
                }
            },
            MdNode::InlineMath { value } => {
                self.push_pending(Event::InlineMath(value));
                proof {
                    assert(self.remaining() =~= pending_models(old(self).pending_events@)
                        + node_events(node0, t) + stack_events(old(self).stack@));
                }
            },
            MdNode::Math { value } => {
                self.push_pending(Event::DisplayMath(value));
                proof {
                    assert(self.remaining() =~= pending_models(old(self).pending_events@)
                        + node_events(node0, t) + stack_events(old(self).stack@));
                }
            },
            MdNode::Break => {
                self.push_pending(Event::HardBreak);
                proof {
                    assert(self.remaining() =~= pending_models(old(self).pending_events@)
                        + node_events(node0, t) + stack_events(old(self).stack@));
                }
            },
            MdNode::ThematicBreak => {
                self.push_pending(Event::Rule);
                proof {
                    assert(self.remaining() =~= pending_models(old(self).pending_events@)
                        + node_events(node0, t) + stack_events(old(self).stack@));
                }
            },
            MdNode::Html { value } => {
                self.push_pending(Event::Html(value));
                proof {
                    assert(self.remaining() =~= pending_models(old(self).pending_events@)
                        + node_events(node0, t) + stack_events(old(self).stack@));
                }
            },
            MdNode::MdxjsEsm { value } => {
                self.push_pending(Event::Html(value));
                proof {
                    assert(self.remaining() =~= pending_models(old(self).pending_events@)
                        + node_events(node0, t) + stack_events(old(self).stack@));
                }
            },
            MdNode::Toml { value } => {
                let html = frontmatter_block(true, value.as_str());
                self.push_pending(Event::Html(html));
                proof {
                    assert(self.remaining() =~= pending_models(old(self).pending_events@)
                        + node_events(node0, t) + stack_events(old(self).stack@));
                }
            },
            MdNode::Yaml { value } => {
                let html = frontmatter_block(false, value.as_str());
                self.push_pending(Event::Html(html));
                proof {
                    assert(self.remaining() =~= pending_models(old(self).pending_events@)
                        + node_events(node0, t) + stack_events(old(self).stack@));
                }
            },
            MdNode::FootnoteReference { identifier } => {
                self.push_pending(Event::FootnoteReference(identifier));
                proof {
                    assert(self.remaining() =~= pending_models(old(self).pending_events@)
                        + node_events(node0, t) + stack_events(old(self).stack@));
                }
            },
            MdNode::Image { url, title, alt } => {
                let title_str = match title {
                    Some(ti) => ti,
                    None => String::new(),
                };
                let tag = Tag::Image {
                    link_type: LinkType::Inline,
                    dest_url: url,
                    title: title_str,
                    id: String::new(),
                };
                self.push_pending(Event::Start(tag));
                if alt.as_str().unicode_len() > 0 {
                    self.push_pending(Event::Text(alt));
                }
                self.push_pending(Event::End(TagEnd::Image));
                proof {
                    assert(self.remaining() =~= pending_models(old(self).pending_events@)
                        + node_events(node0, t) + stack_events(old(self).stack@));
                }
            },
            MdNode::ImageReference { identifier, alt } => {
                let tag = Tag::Image {
                    link_type: LinkType::Reference,
                    dest_url: String::new(),
                    title: String::new(),
                    id: identifier,
                };
                self.push_pending(Event::Start(tag));
                if alt.as_str().unicode_len() > 0 {
                    self.push_pending(Event::Text(alt));
                }
                self.push_pending(Event::End(TagEnd::Image));
                proof {
                    assert(self.remaining() =~= pending_models(old(self).pending_events@)
                        + node_events(node0, t) + stack_events(old(self).stack@));
                }
            },
        }
    }

    /// Appends one event to the output queue.
    fn push_pending(&mut self, e: Event)
        ensures
            final(self).pending_events@ == old(self).pending_events@.push(e),
            final(self).stack@ == old(self).stack@,
            final(self).tight_list_depth == old(self).tight_list_depth,
            pending_models(final(self).pending_events@) == pending_models(
                old(self).pending_events@,
            ) + seq![e.model()],
    {
        proof {
            lemma_pending_push(self.pending_events@, e);
        }
        self.pending_events.push_back(e);
    }

    /// Pushes a transparent frame for a list of children.
    fn push_transparent(&mut self, children: Vec<MdNode>)
        requires
            old(self).wf(),
        ensures
            final(self).wf(),
            final(self).remaining() == pending_models(old(self).pending_events@)
                + children_events(
                children@,
                count_tight(old(self).stack@) > 0,
            ) + stack_events(old(self).stack@),
            final(self).measure() == old(self).measure() + 1 + children_size(children@),
    {
        let ghost ch = children@;
        let f = Frame::Transparent { children };
        let ghost f0 = f;
        proof {
            lemma_stack_push(self.stack@, f0);
        }
        self.stack.push(f);
        proof {
            assert(self.remaining() =~= pending_models(old(self).pending_events@) + f0.events(
                count_tight(old(self).stack@) > 0,
            ) + stack_events(old(self).stack@));
        }
    }

    /// Queues a container's start event and optional task marker, and pushes
    /// its frame; when `tight` holds the frame raises the tight-list depth.
    fn push_container(
        &mut self,
        start_tag: Tag,
        marker: Option<bool>,
        end: TagEnd,
        children: Vec<MdNode>,
        tight: bool,
    )
        requires
            old(self).wf(),
        ensures
            final(self).wf(),
            final(self).remaining() == pending_models(old(self).pending_events@) + (seq![
                EventModel::Start(start_tag.model()),
            ] + marker_models(marker) + children_events(
                children@,
                (count_tight(old(self).stack@) > 0) || tight,
            ) + seq![EventModel::End(end)]) + stack_events(old(self).stack@),
            final(self).measure() + 1 <= old(self).measure() + 4 + children_size(children@),
    {
        let ghost t0 = count_tight(old(self).stack@) > 0;
        self.push_pending(Event::Start(start_tag));
        match marker {
            Some(done) => {
                self.push_pending(Event::TaskListMarker(done));
            },
            None => {},
        }
        let ghost ch = children@;
        let ghost tag0 = start_tag;
        let f = Frame::Container { end, children, tight };
        let ghost f0 = f;
        proof {
            lemma_stack_push(self.stack@, f0);
            lemma_count_tight_le_len(self.stack@.push(f0));
        }
        self.stack.push(f);
        let stack_len = self.stack.len();
        if tight {
            proof {
                assert(count_tight(self.stack@) <= stack_len);
            }
            self.tight_list_depth = self.tight_list_depth + 1;
        }
        proof {
            assert(self.remaining() =~= pending_models(old(self).pending_events@) + (seq![
                EventModel::Start(tag0.model()),
            ] + marker_models(marker) + children_events(ch, t0 || tight) + seq![
                EventModel::End(end),
            ]) + stack_events(old(self).stack@));
        }
    }
}

/// The marker events queued right after a container's start.
spec fn marker_models(marker: Option<bool>) -> Seq<EventModel> {
    match marker {
        Some(done) => seq![EventModel::TaskListMarker(done)],
        None => Seq::empty(),
    }
}


/// Collects the visible text of a heading's children.
fn collect_heading_text(children: &Vec<MdNode>, out: &mut String)
    ensures
        final(out)@ == old(out)@ + nodes_text(children@),
{
    let mut i: usize = 0;
    while i < children.len()
        invariant
            i <= children@.len(),
            out@ == old(out)@ + nodes_text(children@.subrange(0, i as int)),
        decreases children@.len() - i,
    {
        collect_node_text(&children[i], out);
        proof {
            lemma_nodes_text_snoc(children@.subrange(0, i as int + 1));
            assert(children@.subrange(0, i as int + 1).drop_last() =~= children@.subrange(
                0,
                i as int,
            ));
            assert(out@ =~= old(out)@ + nodes_text(children@.subrange(0, i as int + 1)));
        }
        i = i + 1;
    }
    proof {
        assert(children@.subrange(0, children@.len() as int) =~= children@);
    }
}

proof fn lemma_nodes_text_snoc(s: Seq<MdNode>)
    requires
        s.len() > 0,
    ensures
        nodes_text(s) == nodes_text(s.drop_last()) + node_text(s.last()),
    decreases s.len(),
{
    if s.len() == 1 {
        assert(s.drop_first() =~= Seq::<MdNode>::empty());
        assert(s.drop_last() =~= Seq::<MdNode>::empty());
        assert(s[0] == s.last());
        assert(nodes_text(s) =~= nodes_text(s.drop_last()) + node_text(s.last()));
    } else {
        assert(s.drop_first().drop_last() =~= s.drop_last().drop_first());
        assert(s.drop_first().last() == s.last());
        lemma_nodes_text_snoc(s.drop_first());
        assert(s.drop_last()[0] == s[0]);
        assert(nodes_text(s) =~= nodes_text(s.drop_last()) + node_text(s.last()));
    }
}

/// Builds the inert HTML block that carries frontmatter through the
/// pipeline: the raw metadata, text-escaped, inside a marked `pre` element.
fn frontmatter_block(toml: bool, value: &str) -> (r: String)
    ensures
        toml ==> r@ == crate::tree::spec_frontmatter_html("toml"@, value@),
        !toml ==> r@ == crate::tree::spec_frontmatter_html("yaml"@, value@),
{
    let mut html = String::new();
    html.append("<pre class=\"frontmatter\" data-kind=\"");
    if toml {
        html.append("toml");
    } else {
        html.append("yaml");
    }
    html.append("\">");
    crate::escape::escape_text_into(value, &mut html);
    html.append("</pre>");
    html
}

} // verus!
