//! The boundary to the external Markdown parser: one entry point parses the
//! source into the parser's own tree of typed nodes, and a small family of
//! converters moves that tree, one layer at a time, into this library's
//! `MdNode`.
//!
//! The parser's node type is opaque here. Each node carries an abstract
//! weight, named below, and every converter states that a node outweighs its
//! children; that is what grounds the termination of the tree walk.

use vstd::prelude::*;

use markdown::mdast::AlignKind;
use markdown::mdast::Node;

use crate::MarkflowError;
use crate::event::Alignment;
use crate::tree::MdModel;
use crate::tree::MdNode;
use crate::tree::children_models;
use crate::tree::node_model;

verus! {

#[verifier::external_type_specification]
#[verifier::external_body]
pub struct ExMdastNode(markdown::mdast::Node);

/// The abstract weight of a parser node: a measure under which every node
/// outweighs its children together, used only for termination.
pub uninterp spec fn md_node_weight(n: Node) -> nat;

/// The summed weight of a list of parser nodes, plus one per node.
pub open spec fn md_nodes_weight(s: Seq<Node>) -> nat
    decreases s.len(),
{
    if s.len() == 0 {
        0
    } else {
        1 + md_node_weight(s[0]) + md_nodes_weight(s.drop_first())
    }
}

/// The model of a parser node: the canonical translation of the parser's
/// node into this library's tree model. A fixed function of the node alone;
/// each converter below states how one layer of it decomposes.
pub uninterp spec fn mdast_view(n: Node) -> MdModel;

/// The models of a list of parser nodes, in order.
pub open spec fn mdast_views(s: Seq<Node>) -> Seq<MdModel> {
    Seq::new(s.len(), |i: int| mdast_view(s[i]))
}

/// The document the parser produces for a source text under the given
/// construct flags, as this library's tree model: a fixed function of the
/// text and the flags alone.
pub uninterp spec fn md_doc(
    input: Seq<char>,
    gfm_tables: bool,
    gfm_tasklists: bool,
    footnotes: bool,
) -> MdModel;

/// Whether the parser accepts a source text under the given construct flags:
/// a fixed function of the text and the flags alone.
pub uninterp spec fn md_accepts(
    input: Seq<char>,
    gfm_tables: bool,
    gfm_tasklists: bool,
    footnotes: bool,
) -> bool;

/// One layer of a parser node, pulled across the boundary: either a finished
/// leaf of this library's tree, or the head of a container together with the
/// parser's children, still unconverted.
pub enum RawNode {
    Leaf { leaf: MdNode },
    Block { head: RawHead, children: Vec<Node> },
}

/// The head of a container node: everything the pipeline reads of it apart
/// from its children.
pub enum RawHead {
    Root,
    Paragraph,
    Heading { depth: u8 },
    Blockquote,
    List { ordered: bool, start: Option<u32> },
    ListItem { checked: Option<bool>, spread: bool },
    FootnoteDefinition { identifier: String },
    Emphasis,
    Strong,
    Delete,
    Link { url: String, title: Option<String> },
    LinkReference { identifier: String },
    Table { align: Vec<Alignment> },
    TableRow,
    TableCell,
    Unsupported,
}

/// Relies on markdown::to_mdast with the GFM constructs plus frontmatter and
/// math: parses the source text into the parser's tree, or reports the
/// parser's message. The three flags switch the GFM table, task-list and
/// footnote constructs.
#[verifier::external_body]
fn md_parse(input: &str, gfm_tables: bool, gfm_tasklists: bool, footnotes: bool) -> (r: Result<
    Node,
    String,
>)
    ensures
        r is Ok <==> md_accepts(input@, gfm_tables, gfm_tasklists, footnotes),
        r matches Ok(n) ==> mdast_view(n) == md_doc(input@, gfm_tables, gfm_tasklists, footnotes),
{
    let mut options = markdown::ParseOptions::gfm();
    options.constructs.frontmatter = true;
    options.constructs.math_flow = true;
    options.constructs.math_text = true;
    options.constructs.gfm_table = gfm_tables;
    options.constructs.gfm_task_list_item = gfm_tasklists;
    options.constructs.gfm_footnote_definition = footnotes;
    options.constructs.gfm_label_start_footnote = footnotes;
    markdown::to_mdast(input, &options).map_err(|err| err.to_string())
}

/// Relies on markdown::mdast::Node: tells the block container variants
/// apart, moving their fields; other variants are handed back unchanged.
#[verifier::external_body]
fn classify_block(n: Node) -> (r: Result<RawNode, Node>)
    ensures
        classify_weights(r, n),
        r is Err ==> !(mdast_view(n) is Root) && !(mdast_view(n) is Paragraph) && !(mdast_view(n) is Heading) && !(mdast_view(n) is Blockquote),
{
    match n {
        Node::Root(x) => Ok(RawNode::Block { head: RawHead::Root, children: x.children }),
        Node::Paragraph(x) => Ok(RawNode::Block { head: RawHead::Paragraph, children: x.children }),
        Node::Heading(x) => Ok(RawNode::Block { head: RawHead::Heading { depth: x.depth }, children: x.children }),
        Node::Blockquote(x) => Ok(RawNode::Block { head: RawHead::Blockquote, children: x.children }),
        other => Err(other),
    }
}

/// Relies on markdown::mdast::Node: tells the list-related container
/// variants apart, moving their fields; other variants are handed back
/// unchanged.
#[verifier::external_body]
fn classify_list(n: Node) -> (r: Result<RawNode, Node>)
    ensures
        classify_weights(r, n),
        r is Err ==> !(mdast_view(n) is List) && !(mdast_view(n) is ListItem) && !(mdast_view(n) is FootnoteDefinition),
{
    match n {
        Node::List(x) => Ok(RawNode::Block { head: RawHead::List { ordered: x.ordered, start: x.start }, children: x.children }),
        Node::ListItem(x) => Ok(RawNode::Block { head: RawHead::ListItem { checked: x.checked, spread: x.spread }, children: x.children }),
        Node::FootnoteDefinition(x) => Ok(RawNode::Block { head: RawHead::FootnoteDefinition { identifier: x.identifier }, children: x.children }),
        other => Err(other),
    }
}

/// What every converter states of its result: a container's children weigh
/// less than the node they came from; a leaf is the node's whole model; a
/// container head with its children's models composes to the node's model; a
/// node handed back is the same node.
pub open spec fn classify_weights(r: Result<RawNode, Node>, n: Node) -> bool {
    match r {
        Ok(RawNode::Block { head, children }) => md_nodes_weight(children@) < md_node_weight(n)
            && mdast_view(n) == head_assembled(head, mdast_views(children@)),
        Ok(RawNode::Leaf { leaf }) => node_model(leaf) == mdast_view(n),
        Err(m) => m == n,
    }
}

/// The model a container head assembles to, given its children's models.
pub open spec fn head_assembled(head: RawHead, children: Seq<MdModel>) -> MdModel {
    match head {
        RawHead::Root => MdModel::Root { children },
        RawHead::Paragraph => MdModel::Paragraph { children },
        RawHead::Heading { depth } => MdModel::Heading { depth, children },
        RawHead::Blockquote => MdModel::Blockquote { children },
        RawHead::List { ordered, start } => MdModel::List { ordered, start, children },
        RawHead::ListItem { checked, spread } => MdModel::ListItem { checked, spread, children },
        RawHead::FootnoteDefinition { identifier } => MdModel::FootnoteDefinition {
            identifier: identifier@,
            children,
        },
        RawHead::Emphasis => MdModel::Emphasis { children },
        RawHead::Strong => MdModel::Strong { children },
        RawHead::Delete => MdModel::Delete { children },
        RawHead::Link { url, title } => MdModel::Link {
            url: url@,
            title: crate::tree::opt_view(title),
            children,
        },
        RawHead::LinkReference { identifier } => MdModel::LinkReference {
            identifier: identifier@,
            children,
        },
        RawHead::Table { align } => MdModel::Table { align: align@, children },
        RawHead::TableRow => MdModel::TableRow { children },
        RawHead::TableCell => MdModel::TableCell { children },
        RawHead::Unsupported => MdModel::Unsupported { children },
    }
}

/// Relies on markdown::mdast::Node: tells the inline container variants
/// apart, moving their fields; other variants are handed back unchanged.
#[verifier::external_body]
fn classify_inline(n: Node) -> (r: Result<RawNode, Node>)
    ensures
        classify_weights(r, n),
        r is Err ==> !(mdast_view(n) is Emphasis) && !(mdast_view(n) is Strong) && !(mdast_view(n) is Delete) && !(mdast_view(n) is TableRow) && !(mdast_view(n) is TableCell),
{
    match n {
        Node::Emphasis(x) => Ok(RawNode::Block { head: RawHead::Emphasis, children: x.children }),
        Node::Strong(x) => Ok(RawNode::Block { head: RawHead::Strong, children: x.children }),
        Node::Delete(x) => Ok(RawNode::Block { head: RawHead::Delete, children: x.children }),
        Node::TableRow(x) => Ok(RawNode::Block { head: RawHead::TableRow, children: x.children }),
        Node::TableCell(x) => Ok(RawNode::Block { head: RawHead::TableCell, children: x.children }),
        other => Err(other),
    }
}

/// Relies on markdown::mdast::Node: tells the two link container variants
/// apart, moving their fields; other variants are handed back unchanged.
#[verifier::external_body]
fn classify_link(n: Node) -> (r: Result<RawNode, Node>)
    ensures
        classify_weights(r, n),
        r is Err ==> !(mdast_view(n) is Link) && !(mdast_view(n) is LinkReference),
{
    match n {
        Node::Link(x) => Ok(RawNode::Block { head: RawHead::Link { url: x.url, title: x.title }, children: x.children }),
        Node::LinkReference(x) => Ok(RawNode::Block { head: RawHead::LinkReference { identifier: x.identifier }, children: x.children }),
        other => Err(other),
    }
}

/// Relies on markdown::mdast::Node: moves a table's column alignments, one
/// variant to one variant, together with its rows.
#[verifier::external_body]
fn classify_table(n: Node) -> (r: Result<RawNode, Node>)
    ensures
        classify_weights(r, n),
        r is Err ==> !(mdast_view(n) is Table),
{
    match n {
        Node::Table(x) => {
            let align = x.align.iter().map(|a| match a {
                AlignKind::Left => Alignment::Left,
                AlignKind::Right => Alignment::Right,
                AlignKind::Center => Alignment::Center,
                AlignKind::None => Alignment::Unset,
            }).collect();
            Ok(RawNode::Block { head: RawHead::Table { align }, children: x.children })
        },
        other => Err(other),
    }
}

/// Relies on markdown::mdast::Node: tells the text-bearing leaf variants
/// apart, moving their fields; other variants are handed back unchanged.
#[verifier::external_body]
fn classify_leaf(n: Node) -> (r: Result<RawNode, Node>)
    ensures
        classify_weights(r, n),
        r is Err ==> !(mdast_view(n) is Code) && !(mdast_view(n) is Text) && !(mdast_view(n) is InlineCode) && !(mdast_view(n) is InlineMath) && !(mdast_view(n) is Math) && !(mdast_view(n) is Html),
{
    match n {
        Node::Code(x) => Ok(RawNode::Leaf { leaf: MdNode::Code { lang: x.lang, value: x.value } }),
        Node::Text(x) => Ok(RawNode::Leaf { leaf: MdNode::Text { value: x.value } }),
        Node::InlineCode(x) => Ok(RawNode::Leaf { leaf: MdNode::InlineCode { value: x.value } }),
        Node::InlineMath(x) => Ok(RawNode::Leaf { leaf: MdNode::InlineMath { value: x.value } }),
        Node::Math(x) => Ok(RawNode::Leaf { leaf: MdNode::Math { value: x.value } }),
        Node::Html(x) => Ok(RawNode::Leaf { leaf: MdNode::Html { value: x.value } }),
        other => Err(other),
    }
}

/// Relies on markdown::mdast::Node: tells the remaining mapped leaf variants
/// apart, moving their fields; other variants are handed back unchanged.
#[verifier::external_body]
fn classify_extra(n: Node) -> (r: Result<RawNode, Node>)
    ensures
        classify_weights(r, n),
        r is Err ==> !(mdast_view(n) is Break) && !(mdast_view(n) is ThematicBreak) && !(mdast_view(n) is Toml) && !(mdast_view(n) is Yaml) && !(mdast_view(n) is MdxjsEsm) && !(mdast_view(n) is FootnoteReference),
{
    match n {
        Node::Break(_) => Ok(RawNode::Leaf { leaf: MdNode::Break }),
        Node::ThematicBreak(_) => Ok(RawNode::Leaf { leaf: MdNode::ThematicBreak }),
        Node::Toml(x) => Ok(RawNode::Leaf { leaf: MdNode::Toml { value: x.value } }),
        Node::Yaml(x) => Ok(RawNode::Leaf { leaf: MdNode::Yaml { value: x.value } }),
        Node::MdxjsEsm(x) => Ok(RawNode::Leaf { leaf: MdNode::MdxjsEsm { value: x.value } }),
        Node::FootnoteReference(x) => Ok(RawNode::Leaf { leaf: MdNode::FootnoteReference { identifier: x.identifier } }),
        other => Err(other),
    }
}

/// Relies on markdown::mdast::Node: tells the image leaf variants apart,
/// moving their fields; other variants are handed back unchanged.
#[verifier::external_body]
fn classify_image(n: Node) -> (r: Result<RawNode, Node>)
    ensures
        classify_weights(r, n),
        r is Err ==> !(mdast_view(n) is Image) && !(mdast_view(n) is ImageReference),
{
    match n {
        Node::Image(x) => Ok(RawNode::Leaf { leaf: MdNode::Image { url: x.url, title: x.title, alt: x.alt } }),
        Node::ImageReference(x) => Ok(RawNode::Leaf { leaf: MdNode::ImageReference { identifier: x.identifier, alt: x.alt } }),
        other => Err(other),
    }
}

/// When a node's model is an unmapped kind, the given children are exactly
/// its modelled children.
pub open spec fn unsupported_view_ok(n: Node, children: Seq<Node>) -> bool {
    mdast_view(n) matches MdModel::Unsupported { children: mc } ==> mdast_views(children) == mc
}

/// Relies on markdown::mdast::Node: node kinds with no rendering mapping
/// keep their children, to be descended into transparently; kinds without
/// children are skipped outright.
#[verifier::external_body]
fn classify_other(n: Node) -> (r: RawNode)
    ensures
        r is Block,
        r matches RawNode::Block { head, children } ==> (head is Unsupported && md_nodes_weight(
            children@,
        ) < md_node_weight(n) && unsupported_view_ok(n, children@)),
{
    match n {
        Node::MdxJsxFlowElement(x) => RawNode::Block { head: RawHead::Unsupported, children: x.children },
        Node::MdxJsxTextElement(x) => RawNode::Block { head: RawHead::Unsupported, children: x.children },
        _ => RawNode::Block { head: RawHead::Unsupported, children: Vec::new() },
    }
}

/// What one pulled layer means: a leaf carries the node's whole model; a
/// container head composes, with its children's models, to the node's model.
pub open spec fn classified_ok(r: RawNode, n: Node) -> bool {
    match r {
        RawNode::Leaf { leaf } => node_model(leaf) == mdast_view(n),
        RawNode::Block { head, children } => mdast_view(n) == head_assembled(
            head,
            mdast_views(children@),
        ) && md_nodes_weight(children@) < md_node_weight(n),
    }
}

/// Pulls one layer of a parser node across the boundary.
fn classify(n: Node) -> (r: RawNode)
    ensures
        classified_ok(r, n),
{
    let n = match classify_block(n) {
        Ok(r) => {
            return r;
        },
        Err(n) => n,
    };
    let n = match classify_list(n) {
        Ok(r) => {
            return r;
        },
        Err(n) => n,
    };
    let n = match classify_inline(n) {
        Ok(r) => {
            return r;
        },
        Err(n) => n,
    };
    let n = match classify_link(n) {
        Ok(r) => {
            return r;
        },
        Err(n) => n,
    };
    let n = match classify_table(n) {
        Ok(r) => {
            return r;
        },
        Err(n) => n,
    };
    let n = match classify_leaf(n) {
        Ok(r) => {
            return r;
        },
        Err(n) => n,
    };
    let n = match classify_extra(n) {
        Ok(r) => {
            return r;
        },
        Err(n) => n,
    };
    let n = match classify_image(n) {
        Ok(r) => {
            return r;
        },
        Err(n) => n,
    };
    let r = classify_other(n);
    proof {
        assert(mdast_view(n) is Unsupported);
        assert(classified_ok(r, n));
    }
    r
}

/// The models of already converted children, pointwise.
pub open spec fn models_of_nodes(v: Seq<MdNode>) -> Seq<MdModel> {
    Seq::new(v.len(), |i: int| node_model(v[i]))
}

/// Assembles a converted container from its head and its converted children.
fn assemble(head: RawHead, children: Vec<MdNode>) -> (r: MdNode)
    ensures
        node_model(r) == head_assembled(head, models_of_nodes(children@)),
{
    let ghost c0 = children@;
    let ghost h0 = head;
    let r = match head {
        RawHead::Root => MdNode::Root { children },
        RawHead::Paragraph => MdNode::Paragraph { children },
        RawHead::Heading { depth } => MdNode::Heading { depth, children },
        RawHead::Blockquote => MdNode::Blockquote { children },
        RawHead::List { ordered, start } => MdNode::List { ordered, start, children },
        RawHead::ListItem { checked, spread } => MdNode::ListItem { checked, spread, children },
        RawHead::FootnoteDefinition { identifier } => MdNode::FootnoteDefinition {
            identifier,
            children,
        },
        RawHead::Emphasis => MdNode::Emphasis { children },
        RawHead::Strong => MdNode::Strong { children },
        RawHead::Delete => MdNode::Delete { children },
        RawHead::Link { url, title } => MdNode::Link { url, title, children },
        RawHead::LinkReference { identifier } => MdNode::LinkReference { identifier, children },
        RawHead::Table { align } => MdNode::Table { align, children },
        RawHead::TableRow => MdNode::TableRow { children },
        RawHead::TableCell => MdNode::TableCell { children },
        RawHead::Unsupported => MdNode::Unsupported { children },
    };
    proof {
        crate::tree::lemma_children_models_pointwise(c0);
        assert(node_model(r) =~= head_assembled(h0, models_of_nodes(c0)));
    }
    r
}

/// One in-progress container during the tree walk: its head, the parser
/// children still to convert, the children already converted, and, for the
/// proof, the parser node it came from.
struct ConvFrame {
    head: RawHead,
    pending: Vec<Node>,
    done: Vec<MdNode>,
    target: Ghost<Node>,
}

/// A frame no child of which is being converted right now: what is done and
/// what is pending compose to its node's model.
spec fn frame_top_ok(f: ConvFrame) -> bool {
    mdast_view(f.target@) == head_assembled(
        f.head,
        models_of_nodes(f.done@) + mdast_views(f.pending@),
    )
}

/// A frame whose next child is being converted by the frame above it.
spec fn frame_link_ok(f: ConvFrame, child: Node) -> bool {
    mdast_view(f.target@) == head_assembled(
        f.head,
        models_of_nodes(f.done@) + seq![mdast_view(child)] + mdast_views(f.pending@),
    )
}

/// The whole stack composes towards the root's model.
spec fn stack_ok(frames: Seq<ConvFrame>) -> bool {
    &&& frames.len() > 0
    &&& frame_top_ok(frames.last())
    &&& forall|i: int|
        0 <= i < frames.len() - 1 ==> frame_link_ok(#[trigger] frames[i], frames[i + 1].target@)
}

/// The termination measure of the walk: the weight of everything still to
/// convert, plus one per open frame.
spec fn conv_measure(frames: Seq<ConvFrame>) -> nat
    decreases frames.len(),
{
    if frames.len() == 0 {
        0
    } else {
        conv_measure(frames.drop_last()) + 1 + md_nodes_weight(frames.last().pending@)
    }
}

proof fn lemma_conv_measure_push(frames: Seq<ConvFrame>, f: ConvFrame)
    ensures
        conv_measure(frames.push(f)) == conv_measure(frames) + 1 + md_nodes_weight(f.pending@),
{
    assert(frames.push(f).drop_last() =~= frames);
    assert(frames.push(f).last() == f);
}

/// Converts the parser's tree into this library's tree with an explicit
/// stack in place of recursion: the result's model is exactly the parser
/// node's model.
#[verifier::rlimit(100)]
#[verifier::spinoff_prover]
fn convert_tree(root: Node) -> (r: MdNode)
    ensures
        node_model(r) == mdast_view(root),
{
    let ghost root0 = root;
    let first = classify(root);
    let mut stack: Vec<ConvFrame> = Vec::new();
    match first {
        RawNode::Leaf { leaf } => {
            return leaf;
        },
        RawNode::Block { head, children } => {
            let f = ConvFrame { head, pending: children, done: Vec::new(), target: Ghost(root0) };
            proof {
                lemma_conv_measure_push(stack@, f);
                assert(models_of_nodes(f.done@) + mdast_views(f.pending@) =~= mdast_views(
                    f.pending@,
                ));
            }
            stack.push(f);
        },
    }
    loop
        invariant
            root0 == root,
            stack@.len() > 0,
            stack_ok(stack@),
            stack@[0].target@ == root0,
        decreases conv_measure(stack@),
    {
        let ghost stack0 = stack@;
        let mut frame = match stack.pop() {
            Some(f) => f,
            None => {
                proof {
                    assert(false);
                }
                return MdNode::Unsupported { children: Vec::new() };
            },
        };
        let ghost frame0 = frame;
        proof {
            assert(stack0.drop_last() =~= stack@);
            assert(stack0.last() == frame0);
        }
        if frame.pending.len() > 0 {
            let ghost pend0 = frame.pending@;
            let ghost done0 = frame.done@;
            let child = frame.pending.remove(0);
            proof {
                assert(frame.pending@ =~= pend0.drop_first());
                assert(pend0[0] == child);
                assert(mdast_views(pend0) =~= seq![mdast_view(child)] + mdast_views(
                    frame.pending@,
                ));
            }
            let raw = classify(child);
            match raw {
                RawNode::Leaf { leaf } => {
                    frame.done.push(leaf);
                    let ghost f1 = frame;
                    proof {
                        assert(models_of_nodes(f1.done@) =~= models_of_nodes(done0).push(
                            mdast_view(child),
                        ));
                        assert(models_of_nodes(f1.done@) + mdast_views(f1.pending@)
                            =~= models_of_nodes(done0) + mdast_views(pend0));
                        assert(frame_top_ok(f1));
                        lemma_conv_measure_push(stack@, f1);
                        assert(md_nodes_weight(pend0) == 1 + md_node_weight(child)
                            + md_nodes_weight(f1.pending@));
                    }
                    stack.push(frame);
                    proof {
                        assert(stack@.drop_last() =~= stack0.drop_last());
                        assert(stack_ok(stack@)) by {
                            assert(forall|i: int|
                                0 <= i < stack@.len() - 1 ==> stack@[i] == stack0[i]);
                            assert(forall|i: int|
                                0 <= i < stack@.len() - 1 ==> frame_link_ok(
                                    #[trigger] stack@[i],
                                    stack@[i + 1].target@,
                                ));
                        }
                    }
                },
                RawNode::Block { head, children } => {
                    let ghost f1 = frame;
                    proof {
                        lemma_conv_measure_push(stack@, f1);
                    }
                    stack.push(frame);
                    let newf = ConvFrame {
                        head,
                        pending: children,
                        done: Vec::new(),
                        target: Ghost(child),
                    };
                    let ghost f2 = newf;
                    proof {
                        lemma_conv_measure_push(stack@, f2);
                        assert(md_nodes_weight(pend0) == 1 + md_node_weight(child)
                            + md_nodes_weight(f1.pending@));
                    }
                    stack.push(newf);
                    proof {
                        assert(frame_link_ok(f1, child)) by {
                            assert(models_of_nodes(f1.done@) + seq![mdast_view(child)]
                                + mdast_views(f1.pending@) =~= models_of_nodes(done0)
                                + mdast_views(pend0));
                        }
                        assert(frame_top_ok(f2)) by {
                            assert(models_of_nodes(f2.done@) + mdast_views(f2.pending@)
                                =~= mdast_views(children@));
                        }
                        assert(stack_ok(stack@)) by {
                            assert(forall|i: int|
                                0 <= i < stack@.len() - 2 ==> stack@[i] == stack0[i]);
                            assert(stack@[stack@.len() - 2] == f1);
                            assert(forall|i: int|
                                0 <= i < stack@.len() - 1 ==> frame_link_ok(
                                    #[trigger] stack@[i],
                                    stack@[i + 1].target@,
                                ));
                        }
                    }
                },
            }
        } else {
            let ghost done0 = frame.done@;
            proof {
                assert(mdast_views(frame.pending@) =~= Seq::<MdModel>::empty());
                assert(models_of_nodes(done0) + mdast_views(frame.pending@) =~= models_of_nodes(
                    done0,
                ));
            }
            let node = assemble(frame.head, frame.done);
            proof {
                assert(node_model(node) == mdast_view(frame0.target@));
            }
            if stack.len() == 0 {
                proof {
                    assert(stack0.len() == 1);
                    assert(frame0.target@ == root0);
                }
                return node;
            }
            let mut parent = match stack.pop() {
                Some(f) => f,
                None => {
                    proof {
                        assert(false);
                    }
                    return node;
                },
            };
            let ghost parent0 = parent;
            proof {
                assert(stack0[stack0.len() - 2] == parent0);
                assert(frame_link_ok(parent0, frame0.target@));
            }
            parent.done.push(node);
            let ghost f1 = parent;
            proof {
                assert(models_of_nodes(f1.done@) =~= models_of_nodes(parent0.done@).push(
                    node_model(node),
                ));
                assert(models_of_nodes(f1.done@) + mdast_views(f1.pending@) =~= models_of_nodes(
                    parent0.done@,
                ) + seq![mdast_view(frame0.target@)] + mdast_views(parent0.pending@));
                assert(frame_top_ok(f1));
                lemma_conv_measure_push(stack@, f1);
            }
            stack.push(parent);
            proof {
                assert(stack@.drop_last() =~= stack0.drop_last().drop_last());
                assert(stack_ok(stack@)) by {
                    assert(forall|i: int| 0 <= i < stack@.len() - 1 ==> stack@[i] == stack0[i]);
                    assert(forall|i: int|
                        0 <= i < stack@.len() - 1 ==> frame_link_ok(
                            #[trigger] stack@[i],
                            stack@[i + 1].target@,
                        ));
                }
            }
        }
    }
}

/// Parses Markdown source into this library's tree of typed nodes, using the
/// external parser with the GFM constructs plus frontmatter and math; the
/// three flags switch the GFM table, task-list and footnote constructs.
/// Success comes exactly when the parser accepts the text, and the returned
/// tree's model is exactly the parsed document's model.
pub fn parse_document_with(
    input: &str,
    gfm_tables: bool,
    gfm_tasklists: bool,
    footnotes: bool,
) -> (r: Result<MdNode, MarkflowError>)
    ensures
        r is Ok <==> md_accepts(input@, gfm_tables, gfm_tasklists, footnotes),
        r matches Ok(t) ==> node_model(t) == md_doc(input@, gfm_tables, gfm_tasklists, footnotes),
        r matches Err(e) ==> e is MarkdownAdapter,
{
    match md_parse(input, gfm_tables, gfm_tasklists, footnotes) {
        Ok(tree) => Ok(convert_tree(tree)),
        Err(msg) => Err(MarkflowError::MarkdownAdapter(msg)),
    }
}

/// Parses Markdown source with every construct this pipeline handles turned
/// on.
pub fn parse_document(input: &str) -> (r: Result<MdNode, MarkflowError>)
    ensures
        r is Ok <==> md_accepts(input@, true, true, true),
        r matches Ok(t) ==> node_model(t) == md_doc(input@, true, true, true),
        r matches Err(e) ==> e is MarkdownAdapter,
{
    parse_document_with(input, true, true, true)
}

} // verus!
