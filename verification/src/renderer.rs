//! The streaming HTML renderer: it consumes events one at a time, writes
//! UTF-8 HTML into an abstract byte sink, and keeps just enough state for
//! correct local decisions: the open tables with their column alignments and
//! current column, the table-head depth, and the open images whose children
//! are diverted into alt text instead of the output.
//!
//! `step` is the mathematical meaning of one event; `run` folds it over a
//! sequence. Rendering is proved to emit exactly `run`'s output, so the
//! streaming path and the buffering path agree byte for byte.

use vstd::prelude::*;

use vstd::string::StringSliceAdditionalSpecFns;
use vstd::utf8::encode_utf8;

use crate::MarkflowError;
use crate::chars::push_decimal_str;
use crate::chars::spec_decimal;
use crate::escape::escape_into;
use crate::escape::spec_escape;
use crate::event::Alignment;
use crate::event::CodeBlockKind;
use crate::event::CodeBlockKindModel;
use crate::event::Event;
use crate::event::EventModel;
use crate::event::HeadingLevel;
use crate::event::Tag;
use crate::event::TagEnd;
use crate::event::TagModel;
use crate::event::models_of;
use crate::sink::ByteSink;

verus! {

/// The model of one open table: its column alignments and the column the
/// next cell falls in.
#[verifier::ext_equal]
pub ghost struct TableModel {
    pub alignments: Seq<Alignment>,
    pub column_index: nat,
}

/// The model of one open image: destination, title, and the alt text
/// accumulated from its diverted children.
#[verifier::ext_equal]
pub ghost struct ImageModel {
    pub dest_url: Seq<char>,
    pub title: Seq<char>,
    pub alt: Seq<char>,
}

/// The renderer's state between events.
#[verifier::ext_equal]
pub ghost struct RenderModel {
    pub table_head_depth: nat,
    pub tables: Seq<TableModel>,
    pub images: Seq<ImageModel>,
}

/// The renderer's starting state: nothing open.
pub open spec fn init_model() -> RenderModel {
    RenderModel { table_head_depth: 0, tables: Seq::empty(), images: Seq::empty() }
}

/// Whether an event is diverted into alt text while an image is open.
pub open spec fn is_diverted(e: EventModel) -> bool {
    e is Text || e is Code || e is SoftBreak || e is HardBreak
}

/// The alt-text contribution of one diverted event.
pub open spec fn diverted_text(e: EventModel) -> Seq<char> {
    match e {
        EventModel::Text(t) => t,
        EventModel::Code(t) => t,
        _ => seq![' '],
    }
}

/// Appends text to the alt buffer of the innermost open image.
pub open spec fn append_alt(m: RenderModel, t: Seq<char>) -> RenderModel {
    let last = m.images.last();
    RenderModel {
        images: m.images.update(
            m.images.len() - 1,
            ImageModel { alt: last.alt + t, ..last },
        ),
        ..m
    }
}

/// The id attribute of a heading, when it carries one.
pub open spec fn heading_id_out(id: Option<Seq<char>>) -> Seq<char> {
    match id {
        Some(s) => " id=\""@ + spec_escape(s) + "\""@,
        None => Seq::empty(),
    }
}

/// The class list of a heading, space-joined, from index `i` on.
pub open spec fn classes_join(classes: Seq<Seq<char>>, i: int) -> Seq<char>
    decreases classes.len() - i,
{
    if i < 0 || i >= classes.len() {
        Seq::empty()
    } else {
        (if i > 0 {
            seq![' ']
        } else {
            Seq::empty()
        }) + spec_escape(classes[i]) + classes_join(classes, i + 1)
    }
}

/// The class attribute of a heading, absent when the list is empty.
pub open spec fn heading_classes_out(classes: Seq<Seq<char>>) -> Seq<char> {
    if classes.len() == 0 {
        Seq::empty()
    } else {
        " class=\""@ + classes_join(classes, 0) + "\""@
    }
}

/// One extra heading attribute: quoted and escaped when it has a value,
/// bare otherwise.
pub open spec fn attr_out(attr: (Seq<char>, Option<Seq<char>>)) -> Seq<char> {
    match attr.1 {
        Some(v) => seq![' '] + attr.0 + "=\""@ + spec_escape(v) + "\""@,
        None => seq![' '] + attr.0,
    }
}

/// The extra heading attributes from index `i` on.
pub open spec fn attrs_join(attrs: Seq<(Seq<char>, Option<Seq<char>>)>, i: int) -> Seq<char>
    decreases attrs.len() - i,
{
    if i < 0 || i >= attrs.len() {
        Seq::empty()
    } else {
        attr_out(attrs[i]) + attrs_join(attrs, i + 1)
    }
}

/// A head-depth increment that cannot exceed the machine word.
pub open spec fn depth_inc(d: nat) -> nat {
    if d < usize::MAX {
        d + 1
    } else {
        d
    }
}

/// A head-depth decrement that stops at zero.
pub open spec fn depth_dec(d: nat) -> nat {
    if d > 0 {
        (d - 1) as nat
    } else {
        0
    }
}

/// The cell tag name chosen by the head depth: header or body cell.
pub open spec fn cell_name(m: RenderModel) -> Seq<char> {
    if m.table_head_depth > 0 {
        "th"@
    } else {
        "td"@
    }
}

/// The inline style of a cell alignment; none for an unset alignment.
pub open spec fn align_style(a: Alignment) -> Seq<char> {
    match a {
        Alignment::Unset => Seq::empty(),
        Alignment::Left => " style=\"text-align:left\""@,
        Alignment::Right => " style=\"text-align:right\""@,
        Alignment::Center => " style=\"text-align:center\""@,
    }
}

/// Opening a table cell: the tag name follows the head depth, the alignment
/// is looked up by this table's current column, and that column advances,
/// but only while the column is within the declared alignments.
pub open spec fn cell_start(m: RenderModel) -> (RenderModel, Seq<char>) {
    let name = cell_name(m);
    if m.tables.len() > 0 && m.tables.last().column_index < m.tables.last().alignments.len() {
        let table = m.tables.last();
        let style = align_style(table.alignments[table.column_index as int]);
        let m2 = RenderModel {
            tables: m.tables.update(
                m.tables.len() - 1,
                TableModel { column_index: table.column_index + 1, ..table },
            ),
            ..m
        };
        (m2, "<"@ + name + style + ">"@)
    } else {
        (m, "<"@ + name + ">"@)
    }
}

/// The state change and output of a start tag.
pub open spec fn start_step(m: RenderModel, tag: TagModel) -> (RenderModel, Seq<char>) {
    match tag {
        TagModel::Paragraph => (m, "<p>"@),
        TagModel::Heading { level, id, classes, attrs } => (
            m,
            "<h"@ + spec_decimal(level.spec_number() as nat) + heading_id_out(id)
                + heading_classes_out(classes) + attrs_join(attrs, 0) + ">"@,
        ),
        TagModel::BlockQuote => (m, "<blockquote>"@),
        TagModel::CodeBlock(kind) => (
            m,
            match kind {
                CodeBlockKindModel::Indented => "<pre><code>"@,
                CodeBlockKindModel::Fenced(lang) => "<pre><code class=\"language-"@ + spec_escape(
                    lang,
                ) + "\">"@,
            },
        ),
        TagModel::List(start) => (
            m,
            match start {
                Some(n) => "<ol start=\""@ + spec_decimal(n as nat) + "\">"@,
                None => "<ul>"@,
            },
        ),
        TagModel::Item => (m, "<li>"@),
        TagModel::FootnoteDefinition(label) => (
            m,
            "<section class=\"footnote\" id=\"fn-"@ + label + "\">"@,
        ),
        TagModel::Table(alignments) => (
            RenderModel {
                tables: m.tables.push(TableModel { alignments, column_index: 0 }),
                ..m
            },
            "<table>"@,
        ),
        TagModel::TableHead => (
            RenderModel { table_head_depth: depth_inc(m.table_head_depth), ..m },
            "<thead>"@,
        ),
        TagModel::TableRow => (
            if m.tables.len() > 0 {
                RenderModel {
                    tables: m.tables.update(
                        m.tables.len() - 1,
                        TableModel { column_index: 0, ..m.tables.last() },
                    ),
                    ..m
                }
            } else {
                m
            },
            "<tr>"@,
        ),
        TagModel::TableCell => cell_start(m),
        TagModel::Emphasis => (m, "<em>"@),
        TagModel::Strong => (m, "<strong>"@),
        TagModel::Strikethrough => (m, "<del>"@),
        TagModel::Link { dest_url, title, .. } => (
            m,
            "<a href=\""@ + spec_escape(dest_url) + "\""@ + (if title.len() > 0 {
                " title=\""@ + spec_escape(title) + "\""@
            } else {
                Seq::empty()
            }) + ">"@,
        ),
        TagModel::Image { dest_url, title, .. } => (
            RenderModel {
                images: m.images.push(ImageModel { dest_url, title, alt: Seq::empty() }),
                ..m
            },
            Seq::empty(),
        ),
    }
}

/// Closing an image: pop its context and emit the complete self-closing
/// element with escaped source, flattened alt text, optional title, and the
/// fixed lazy-loading attribute.
pub open spec fn finish_image(m: RenderModel) -> (RenderModel, Seq<char>) {
    if m.images.len() > 0 {
        let img = m.images.last();
        let out = "<img src=\""@ + spec_escape(img.dest_url) + "\" alt=\""@ + spec_escape(img.alt)
            + "\""@ + (if img.title.len() > 0 {
            " title=\""@ + spec_escape(img.title) + "\""@
        } else {
            Seq::empty()
        }) + " loading=\"lazy\" />"@;
        (RenderModel { images: m.images.drop_last(), ..m }, out)
    } else {
        (m, Seq::empty())
    }
}

/// The state change and output of an end tag.
pub open spec fn end_step(m: RenderModel, end: TagEnd) -> (RenderModel, Seq<char>) {
    match end {
        TagEnd::Paragraph => (m, "</p>\n"@),
        TagEnd::Heading(level) => (m, "</h"@ + spec_decimal(level.spec_number() as nat) + ">\n"@),
        TagEnd::BlockQuote => (m, "</blockquote>\n"@),
        TagEnd::CodeBlock => (m, "</code></pre>\n"@),
        TagEnd::List(ordered) => (
            m,
            if ordered {
                "</ol>\n"@
            } else {
                "</ul>\n"@
            },
        ),
        TagEnd::Item => (m, "</li>"@),
        TagEnd::FootnoteDefinition => (m, "</section>\n"@),
        TagEnd::Table => (
            if m.tables.len() > 0 {
                RenderModel { tables: m.tables.drop_last(), ..m }
            } else {
                m
            },
            "</table>\n"@,
        ),
        TagEnd::TableHead => (
            RenderModel { table_head_depth: depth_dec(m.table_head_depth), ..m },
            "</thead>\n"@,
        ),
        TagEnd::TableRow => (m, "</tr>\n"@),
        TagEnd::TableCell => (m, "</"@ + cell_name(m) + ">"@),
        TagEnd::Emphasis => (m, "</em>"@),
        TagEnd::Strong => (m, "</strong>"@),
        TagEnd::Strikethrough => (m, "</del>"@),
        TagEnd::Link => (m, "</a>"@),
        TagEnd::Image => finish_image(m),
    }
}

/// The normal dispatch of one event, when no image diversion applies.
pub open spec fn dispatch(m: RenderModel, e: EventModel) -> (RenderModel, Seq<char>) {
    match e {
        EventModel::Start(tag) => start_step(m, tag),
        EventModel::End(end) => end_step(m, end),
        EventModel::Text(t) => (m, spec_escape(t)),
        EventModel::Code(t) => (m, "<code>"@ + spec_escape(t) + "</code>"@),
        EventModel::Html(h) => (m, h),
        EventModel::InlineHtml(h) => (m, h),
        EventModel::InlineMath(t) => (
            m,
            "<span class=\"math-inline\">"@ + spec_escape(t) + "</span>"@,
        ),
        EventModel::DisplayMath(t) => (
            m,
            "<div class=\"math-display\">"@ + spec_escape(t) + "</div>"@,
        ),
        EventModel::FootnoteReference(l) => (
            m,
            "<sup class=\"footnote-ref\"><a href=\"#fn-"@ + l + "\" id=\"fnref-"@ + l + "\">"@ + l
                + "</a></sup>"@,
        ),
        EventModel::TaskListMarker(done) => (
            m,
            if done {
                "<input type=\"checkbox\" disabled=\"\" checked=\"\" />"@
            } else {
                "<input type=\"checkbox\" disabled=\"\" />"@
            },
        ),
        EventModel::Rule => (m, "<hr />\n"@),
        EventModel::HardBreak => (m, "<br />\n"@),
        EventModel::SoftBreak => (m, "\n"@),
    }
}

/// One renderer step: while an image is open, text, code and breaks are
/// diverted into its alt text and produce no output; every other event is
/// dispatched normally.
pub open spec fn step(m: RenderModel, e: EventModel) -> (RenderModel, Seq<char>) {
    if m.images.len() > 0 && is_diverted(e) {
        (append_alt(m, diverted_text(e)), Seq::empty())
    } else {
        dispatch(m, e)
    }
}

/// Folds the renderer over an event sequence: the final state and the
/// concatenated output.
pub open spec fn run(m: RenderModel, events: Seq<EventModel>) -> (RenderModel, Seq<char>)
    decreases events.len(),
{
    if events.len() == 0 {
        (m, Seq::empty())
    } else {
        let first = step(m, events[0]);
        let rest = run(first.0, events.drop_first());
        (rest.0, first.1 + rest.1)
    }
}

/// Processing one more event renders one more step's output.
pub proof fn lemma_run_snoc(m: RenderModel, s: Seq<EventModel>, e: EventModel)
    ensures
        run(m, s.push(e)).0 == step(run(m, s).0, e).0,
        run(m, s.push(e)).1 == run(m, s).1 + step(run(m, s).0, e).1,
    decreases s.len(),
{
    if s.len() == 0 {
        assert(s.push(e)[0] == e);
        assert(s.push(e).drop_first() =~= Seq::<EventModel>::empty());
        assert(run(step(m, e).0, Seq::<EventModel>::empty()).1 =~= Seq::<char>::empty());
        assert(run(m, s.push(e)).1 =~= run(m, s).1 + step(run(m, s).0, e).1);
    } else {
        assert(s.push(e)[0] == s[0]);
        assert(s.push(e).drop_first() =~= s.drop_first().push(e));
        lemma_run_snoc(step(m, s[0]).0, s.drop_first(), e);
        assert(run(m, s.push(e)).1 =~= run(m, s).1 + step(run(m, s).0, e).1);
    }
}

/// Streaming equals buffering: rendering a sequence in two pieces, the
/// second starting from the state the first one left, writes exactly the
/// bytes of rendering the whole sequence at once.
pub proof fn lemma_run_append(m: RenderModel, s1: Seq<EventModel>, s2: Seq<EventModel>)
    ensures
        run(m, s1 + s2).0 == run(run(m, s1).0, s2).0,
        run(m, s1 + s2).1 == run(m, s1).1 + run(run(m, s1).0, s2).1,
    decreases s2.len(),
{
    if s2.len() == 0 {
        assert(s1 + s2 =~= s1);
        assert(run(m, s1).1 + run(run(m, s1).0, s2).1 =~= run(m, s1).1);
    } else {
        assert((s1 + s2).drop_last() =~= s1 + s2.drop_last());
        assert(s1 + s2 =~= (s1 + s2.drop_last()).push(s2.last()));
        assert(s2.drop_last().push(s2.last()) =~= s2);
        lemma_run_append(m, s1, s2.drop_last());
        lemma_run_snoc(m, s1 + s2.drop_last(), s2.last());
        lemma_run_snoc(run(m, s1).0, s2.drop_last(), s2.last());
        assert(run(m, s1 + s2).1 =~= run(m, s1).1 + run(run(m, s1).0, s2).1);
    }
}

/// UTF-8 encoding distributes over concatenation.
pub proof fn lemma_encode_utf8_concat(a: Seq<char>, b: Seq<char>)
    ensures
        encode_utf8(a + b) == encode_utf8(a) + encode_utf8(b),
    decreases a.len(),
{
    if a.len() == 0 {
        assert(a + b =~= b);
        assert(encode_utf8(a) + encode_utf8(b) =~= encode_utf8(b));
    } else {
        assert((a + b)[0] == a[0]);
        assert((a + b).drop_first() =~= a.drop_first() + b);
        lemma_encode_utf8_concat(a.drop_first(), b);
        assert(encode_utf8(a + b) =~= encode_utf8(a) + encode_utf8(b));
    }
}

/// One open table's executable state.
struct TableState {
    alignments: Vec<Alignment>,
    column_index: usize,
}

impl TableState {
    spec fn model(self) -> TableModel {
        TableModel { alignments: self.alignments@, column_index: self.column_index as nat }
    }
}

/// One open image's executable state.
struct ImageContext {
    dest_url: String,
    title: String,
    alt: String,
}

impl ImageContext {
    spec fn model(self) -> ImageModel {
        ImageModel { dest_url: self.dest_url@, title: self.title@, alt: self.alt@ }
    }
}

/// The streaming HTML renderer around an abstract byte sink.
pub struct HtmlRenderer<S: ByteSink> {
    writer: S,
    table_head_depth: usize,
    table_stack: Vec<TableState>,
    image_stack: Vec<ImageContext>,
}

impl<S: ByteSink> HtmlRenderer<S> {
    /// The renderer's current model.
    pub closed spec fn model(self) -> RenderModel {
        RenderModel {
            table_head_depth: self.table_head_depth as nat,
            tables: Seq::new(self.table_stack@.len(), |i: int| self.table_stack@[i].model()),
            images: Seq::new(self.image_stack@.len(), |i: int| self.image_stack@[i].model()),
        }
    }

    /// The sink this renderer writes into.
    pub closed spec fn sink(self) -> S {
        self.writer
    }

    /// Hands the sink back.
    pub fn into_writer(self) -> (r: S)
        ensures
            r == self.sink(),
    {
        self.writer
    }

    /// Wraps a sink in a renderer with nothing open.
    pub fn new(writer: S) -> (r: Self)
        ensures
            r.model() == init_model(),
            r.sink() == writer,
    {
        let r = HtmlRenderer {
            writer,
            table_head_depth: 0,
            table_stack: Vec::new(),
            image_stack: Vec::new(),
        };
        proof {
            assert(r.model() =~= init_model());
        }
        r
    }
}

impl HtmlRenderer<crate::sink::BufferSink> {
    /// Drains the bytes rendered so far out of an in-memory sink, leaving the
    /// renderer's state untouched: the seam for forwarding output chunk by
    /// chunk to a destination outside the library.
    pub fn sink_take_bytes(&mut self) -> (r: Vec<u8>)
        ensures
            r@ == old(self).sink().contents(),
            final(self).sink().contents() == Seq::<u8>::empty(),
            final(self).sink().wf(),
            final(self).model() == old(self).model(),
    {
        self.writer.take_bytes()
    }
}

impl<S: ByteSink> HtmlRenderer<S> {

    /// Renders one event: diverted events feed the open image's alt text;
    /// everything else writes its markup to the sink in full before
    /// returning.
    pub fn render_event(&mut self, e: Event) -> (r: Result<(), MarkflowError>)
        requires
            old(self).sink().wf(),
        ensures
            match r {
                Ok(()) => {
                    &&& final(self).sink().wf()
                    &&& final(self).model() == step(old(self).model(), e.model()).0
                    &&& final(self).sink().contents() == old(self).sink().contents() + encode_utf8(
                        step(old(self).model(), e.model()).1,
                    )
                    &&& final(self).sink().setup() == old(self).sink().setup()
                    &&& final(self).sink().infallible() == old(self).sink().infallible()
                },
                Err(err) => {
                    &&& !old(self).sink().infallible()
                    &&& err is IoError
                    &&& final(self).sink().contents() == old(self).sink().contents()
                    &&& final(self).model() == step(old(self).model(), e.model()).0
                },
            },
    {
        let ghost m0 = self.model();
        let ghost em = e.model();
        if self.image_stack.len() > 0 {
            let diverted = match &e {
                Event::Text(_) => true,
                Event::Code(_) => true,
                Event::SoftBreak => true,
                Event::HardBreak => true,
                _ => false,
            };
            if diverted {
                let mut ctx = match self.image_stack.pop() {
                    Some(c) => c,
                    None => {
                        proof {
                            assert(false);
                        }
                        return Err(MarkflowError::EncodingError);
                    },
                };
                let ghost ctx0 = ctx;
                match &e {
                    Event::Text(t) => ctx.alt.append(t.as_str()),
                    Event::Code(t) => ctx.alt.append(t.as_str()),
                    _ => crate::chars::push_char(&mut ctx.alt, ' '),
                }
                proof {
                    assert(ctx.alt@ == ctx0.alt@ + diverted_text(em));
                }
                self.image_stack.push(ctx);
                proof {
                    assert(self.model().images =~= m0.images.update(
                        m0.images.len() - 1,
                        ImageModel { alt: m0.images.last().alt + diverted_text(em), ..m0.images.last() },
                    ));
                    assert(self.model() =~= append_alt(m0, diverted_text(em)));
                    assert(encode_utf8(Seq::<char>::empty()) =~= Seq::<u8>::empty());
                    assert(self.sink().contents() =~= old(self).sink().contents() + encode_utf8(
                        step(m0, em).1,
                    ));
                }
                return Ok(());
            }
        }
        let mut out = String::new();
        match e {
            Event::Start(tag) => {
                match tag {
                    Tag::Image { dest_url, title, .. } => {
                        self.image_stack.push(ImageContext { dest_url, title, alt: String::new() });
                        proof {
                            assert(self.model().images =~= m0.images.push(
                                self.image_stack@.last().model(),
                            ));
                            assert(self.model() =~= step(m0, em).0);
                        }
                    },
                    _ => {
                        self.write_start_tag(tag, &mut out);
                    },
                }
            },
            Event::End(end) => {
                if end == TagEnd::Image {
                    self.finish_image_markup(&mut out);
                } else {
                    self.write_end_tag(end, &mut out);
                }
            },
            Event::Text(t) => {
                escape_into(t.as_str(), &mut out);
            },
            Event::Code(t) => {
                out.append("<code>");
                escape_into(t.as_str(), &mut out);
                out.append("</code>");
            },
            Event::Html(h) => {
                out.append(h.as_str());
            },
            Event::InlineHtml(h) => {
                out.append(h.as_str());
            },
            Event::InlineMath(t) => {
                out.append("<span class=\"math-inline\">");
                escape_into(t.as_str(), &mut out);
                out.append("</span>");
            },
            Event::DisplayMath(t) => {
                out.append("<div class=\"math-display\">");
                escape_into(t.as_str(), &mut out);
                out.append("</div>");
            },
            Event::FootnoteReference(l) => {
                out.append("<sup class=\"footnote-ref\"><a href=\"#fn-");
                out.append(l.as_str());
                out.append("\" id=\"fnref-");
                out.append(l.as_str());
                out.append("\">");
                out.append(l.as_str());
                out.append("</a></sup>");
            },
            Event::TaskListMarker(done) => {
                if done {
                    out.append("<input type=\"checkbox\" disabled=\"\" checked=\"\" />");
                } else {
                    out.append("<input type=\"checkbox\" disabled=\"\" />");
                }
            },
            Event::Rule => {
                out.append("<hr />\n");
            },
            Event::HardBreak => {
                out.append("<br />\n");
            },
            Event::SoftBreak => {
                out.append("\n");
            },
        }
        proof {
            assert(self.model() == step(m0, em).0);
            assert(out@ == step(m0, em).1);
        }
        match self.writer.write_str_chunk(out.as_str()) {
            Ok(()) => {
                proof {
                    assert(self.sink().contents() =~= old(self).sink().contents() + encode_utf8(
                        step(m0, em).1,
                    ));
                }
                Ok(())
            },
            Err(err) => Err(err),
        }
    }

    /// Writes the opening markup of a non-image tag and applies its state
    /// change.
    #[verifier::rlimit(100)]
    #[verifier::spinoff_prover]
    fn write_start_tag(&mut self, tag: Tag, out: &mut String)
        requires
            !(tag is Image),
        ensures
            final(self).model() == start_step(old(self).model(), tag.model()).0,
            final(out)@ == old(out)@ + start_step(old(self).model(), tag.model()).1,
            final(self).sink() == old(self).sink(),
    {
        let ghost m0 = self.model();
        let ghost tm = tag.model();
        match tag {
            Tag::Paragraph => {
                out.append("<p>");
            },
            Tag::Heading { level, id, classes, attrs } => {
                let ghost lv = level;
                let ghost idv = opt_string_view(id);
                let ghost cls = Seq::new(classes@.len(), |k: int| classes@[k]@);
                let ghost ats = Seq::new(
                    attrs@.len(),
                    |k: int|
                        (
                            attrs@[k].0@,
                            match attrs@[k].1 {
                                Some(v) => Some(v@),
                                None => None,
                            },
                        ),
                );
                heading_open_markup(level, id, classes, attrs, out);
                out.append(">");
                proof {
                    assert(tm == TagModel::Heading { level: lv, id: idv, classes: cls, attrs: ats });
                    assert(out@ =~= old(out)@ + start_step(m0, tm).1);
                }
            },
            Tag::BlockQuote => {
                out.append("<blockquote>");
            },
            Tag::CodeBlock(kind) => {
                match kind {
                    CodeBlockKind::Indented => {
                        out.append("<pre><code>");
                    },
                    CodeBlockKind::Fenced(lang) => {
                        out.append("<pre><code class=\"language-");
                        escape_into(lang.as_str(), out);
                        out.append("\">");
                    },
                }
            },
            Tag::List(start) => {
                match start {
                    Some(n) => {
                        out.append("<ol start=\"");
                        push_decimal_str(n, out);
                        out.append("\">");
                    },
                    None => {
                        out.append("<ul>");
                    },
                }
            },
            Tag::Item => {
                out.append("<li>");
            },
            Tag::FootnoteDefinition(label) => {
                out.append("<section class=\"footnote\" id=\"fn-");
                out.append(label.as_str());
                out.append("\">");
            },
            Tag::Table(alignments) => {
                self.table_stack.push(TableState { alignments, column_index: 0 });
                out.append("<table>");
                proof {
                    assert(self.model().tables =~= m0.tables.push(
                        self.table_stack@.last().model(),
                    ));
                    assert(self.model() =~= start_step(m0, tm).0);
                }
            },
            Tag::TableHead => {
                if self.table_head_depth < usize::MAX {
                    self.table_head_depth = self.table_head_depth + 1;
                }
                out.append("<thead>");
                proof {
                    assert(self.model() =~= start_step(m0, tm).0);
                }
            },
            Tag::TableRow => {
                if self.table_stack.len() > 0 {
                    let mut state = match self.table_stack.pop() {
                        Some(s) => s,
                        None => {
                            proof {
                                assert(false);
                            }
                            TableState { alignments: Vec::new(), column_index: 0 }
                        },
                    };
                    state.column_index = 0;
                    self.table_stack.push(state);
                    proof {
                        assert(self.model().tables =~= m0.tables.update(
                            m0.tables.len() - 1,
                            TableModel { column_index: 0, ..m0.tables.last() },
                        ));
                        assert(self.model() =~= start_step(m0, tm).0);
                    }
                }
                out.append("<tr>");
            },
            Tag::TableCell => {
                out.append("<");
                if self.table_head_depth > 0 {
                    out.append("th");
                } else {
                    out.append("td");
                }
                if self.table_stack.len() > 0 {
                    let mut state = match self.table_stack.pop() {
                        Some(s) => s,
                        None => {
                            proof {
                                assert(false);
                            }
                            TableState { alignments: Vec::new(), column_index: 0 }
                        },
                    };
                    if state.column_index < state.alignments.len() {
                        match state.alignments[state.column_index] {
                            Alignment::Unset => {},
                            Alignment::Left => {
                                out.append(" style=\"text-align:left\"");
                            },
                            Alignment::Right => {
                                out.append(" style=\"text-align:right\"");
                            },
                            Alignment::Center => {
                                out.append(" style=\"text-align:center\"");
                            },
                        }
                        state.column_index = state.column_index + 1;
                    }
                    self.table_stack.push(state);
                    proof {
                        if m0.tables.last().column_index < m0.tables.last().alignments.len() {
                            assert(self.model().tables =~= m0.tables.update(
                                m0.tables.len() - 1,
                                TableModel {
                                    column_index: m0.tables.last().column_index + 1,
                                    ..m0.tables.last()
                                },
                            ));
                        } else {
                            assert(self.model().tables =~= m0.tables);
                        }
                        assert(self.model() =~= cell_start(m0).0);
                    }
                }
                out.append(">");
                proof {
                    assert(out@ =~= old(out)@ + cell_start(m0).1);
                }
            },
            Tag::Emphasis => {
                out.append("<em>");
            },
            Tag::Strong => {
                out.append("<strong>");
            },
            Tag::Strikethrough => {
                out.append("<del>");
            },
            Tag::Link { dest_url, title, .. } => {
                out.append("<a href=\"");
                escape_into(dest_url.as_str(), out);
                out.append("\"");
                if title.as_str().unicode_len() > 0 {
                    out.append(" title=\"");
                    escape_into(title.as_str(), out);
                    out.append("\"");
                }
                out.append(">");
            },
            Tag::Image { .. } => {
                proof {
                    assert(false);
                }
            },
        }
        proof {
            assert(final(self).model() =~= start_step(m0, tm).0);
            assert(final(out)@ =~= old(out)@ + start_step(m0, tm).1);
        }
    }

    /// Writes the closing markup of a non-image end tag and applies its
    /// state change.
    fn write_end_tag(&mut self, end: TagEnd, out: &mut String)
        requires
            end != TagEnd::Image,
        ensures
            final(self).model() == end_step(old(self).model(), end).0,
            final(out)@ == old(out)@ + end_step(old(self).model(), end).1,
            final(self).sink() == old(self).sink(),
    {
        let ghost m0 = self.model();
        match end {
            TagEnd::Paragraph => {
                out.append("</p>\n");
            },
            TagEnd::Heading(level) => {
                out.append("</h");
                push_decimal_str(level.number() as u64, out);
                out.append(">\n");
            },
            TagEnd::BlockQuote => {
                out.append("</blockquote>\n");
            },
            TagEnd::CodeBlock => {
                out.append("</code></pre>\n");
            },
            TagEnd::List(ordered) => {
                if ordered {
                    out.append("</ol>\n");
                } else {
                    out.append("</ul>\n");
                }
            },
            TagEnd::Item => {
                out.append("</li>");
            },
            TagEnd::FootnoteDefinition => {
                out.append("</section>\n");
            },
            TagEnd::Table => {
                if self.table_stack.len() > 0 {
                    self.table_stack.pop();
                    proof {
                        assert(self.model().tables =~= m0.tables.drop_last());
                    }
                }
                out.append("</table>\n");
                proof {
                    assert(self.model() =~= end_step(m0, end).0);
                }
            },
            TagEnd::TableHead => {
                if self.table_head_depth > 0 {
                    self.table_head_depth = self.table_head_depth - 1;
                }
                out.append("</thead>\n");
                proof {
                    assert(self.model() =~= end_step(m0, end).0);
                }
            },
            TagEnd::TableRow => {
                out.append("</tr>\n");
            },
            TagEnd::TableCell => {
                out.append("</");
                if self.table_head_depth > 0 {
                    out.append("th");
                } else {
                    out.append("td");
                }
                out.append(">");
                proof {
                    assert(final(out)@ =~= old(out)@ + end_step(m0, end).1);
                }
            },
            TagEnd::Emphasis => {
                out.append("</em>");
            },
            TagEnd::Strong => {
                out.append("</strong>");
            },
            TagEnd::Strikethrough => {
                out.append("</del>");
            },
            TagEnd::Link => {
                out.append("</a>");
            },
            TagEnd::Image => {
                proof {
                    assert(false);
                }
            },
        }
        proof {
            assert(final(self).model() =~= end_step(m0, end).0);
            assert(final(out)@ =~= old(out)@ + end_step(m0, end).1);
        }
    }

    /// Pops the innermost open image and writes its complete element.
    fn finish_image_markup(&mut self, out: &mut String)
        ensures
            final(self).model() == finish_image(old(self).model()).0,
            final(out)@ == old(out)@ + finish_image(old(self).model()).1,
            final(self).sink() == old(self).sink(),
    {
        let ghost m0 = self.model();
        if self.image_stack.len() > 0 {
            let image = match self.image_stack.pop() {
                Some(c) => c,
                None => {
                    proof {
                        assert(false);
                    }
                    ImageContext { dest_url: String::new(), title: String::new(), alt: String::new() }
                },
            };
            out.append("<img src=\"");
            escape_into(image.dest_url.as_str(), out);
            out.append("\" alt=\"");
            escape_into(image.alt.as_str(), out);
            out.append("\"");
            if image.title.as_str().unicode_len() > 0 {
                out.append(" title=\"");
                escape_into(image.title.as_str(), out);
                out.append("\"");
            }
            out.append(" loading=\"lazy\" />");
            proof {
                assert(self.model().images =~= m0.images.drop_last());
                assert(self.model() =~= finish_image(m0).0);
                assert(final(out)@ =~= old(out)@ + finish_image(m0).1);
            }
        } else {
            proof {
                assert(final(out)@ =~= old(out)@ + finish_image(m0).1);
            }
        }
    }

    /// Consumes an event list, writes its HTML to the sink, and returns the
    /// sink on success: the sink then holds exactly the rendered output of
    /// the whole sequence, appended to what it held before.
    pub fn render(self, events: Vec<Event>) -> (r: Result<S, MarkflowError>)
        requires
            self.sink().wf(),
        ensures
            match r {
                Ok(s) => s.wf() && s.contents() == self.sink().contents() + encode_utf8(
                    run(self.model(), models_of(events@)).1,
                ) && s.setup() == self.sink().setup(),
                Err(e) => !self.sink().infallible() && e is IoError,
            },
    {
        let ghost m0 = self.model();
        let ghost all = models_of(events@);
        let ghost c0 = self.sink().contents();
        let mut events = events;
        let mut rev: Vec<Event> = Vec::new();
        let ghost n = events@.len();
        proof {
            assert(models_of(events@) =~= all.subrange(0, events@.len() as int));
        }
        while events.len() > 0
            invariant
                events@.len() + rev@.len() == n,
                n == all.len(),
                forall|k: int|
                    0 <= k < rev@.len() ==> #[trigger] rev@[k].model() == all[n - 1 - k],
                models_of(events@) == all.subrange(0, events@.len() as int),
            decreases events@.len(),
        {
            let ghost ev0 = events@;
            let e = match events.pop() {
                Some(e) => e,
                None => {
                    proof {
                        assert(false);
                    }
                    return Err(MarkflowError::EncodingError);
                },
            };
            rev.push(e);
            proof {
                assert(models_of(ev0)[ev0.len() - 1] == e.model());
                assert(e.model() == all[events@.len() as int]);
                assert(events@ =~= ev0.subrange(0, ev0.len() - 1));
                assert forall|i: int| 0 <= i < events@.len() implies #[trigger] models_of(
                    events@,
                )[i] == all.subrange(0, events@.len() as int)[i] by {
                    assert(models_of(ev0)[i] == all[i]);
                }
                assert(models_of(events@) =~= all.subrange(0, events@.len() as int));
            }
        }
        let mut me = self;
        let ghost mut done: Seq<EventModel> = Seq::empty();
        proof {
            assert(run(m0, done).0 == m0);
            assert(run(m0, done).1 =~= Seq::<char>::empty());
            assert(me.sink().contents() =~= c0 + encode_utf8(run(m0, done).1));
            assert(done =~= all.subrange(0, done.len() as int));
            assert(n == all.len());
        }
        while rev.len() > 0
            invariant
                me.sink().wf(),
                me.sink().setup() == self.sink().setup(),
                me.sink().infallible() == self.sink().infallible(),
                done.len() + rev@.len() == n,
                n == all.len(),
                forall|k: int|
                    0 <= k < rev@.len() ==> #[trigger] rev@[k].model() == all[n - 1 - k],
                done == all.subrange(0, done.len() as int),
                me.model() == run(m0, done).0,
                me.sink().contents() == c0 + encode_utf8(run(m0, done).1),
            decreases rev@.len(),
        {
            let ghost rev0 = rev@;
            let e = match rev.pop() {
                Some(e) => e,
                None => {
                    proof {
                        assert(false);
                    }
                    return Err(MarkflowError::EncodingError);
                },
            };
            proof {
                assert(rev0[rev0.len() - 1].model() == all[n - 1 - (rev0.len() - 1)]);
                assert(e.model() == all[done.len() as int]);
            }
            match me.render_event(e) {
                Ok(()) => {},
                Err(err) => {
                    return Err(err);
                },
            }
            proof {
                lemma_run_snoc(m0, done, e.model());
                lemma_encode_utf8_concat(run(m0, done).1, step(run(m0, done).0, e.model()).1);
                done = done.push(e.model());
                assert(done =~= all.subrange(0, done.len() as int));
                assert(me.sink().contents() =~= c0 + encode_utf8(run(m0, done).1));
            }
        }
        proof {
            assert(done.len() == n);
            assert(done =~= all);
        }
        Ok(me.writer)
    }
}


/// Whether every event of a sequence is one the renderer diverts into alt
/// text while an image is open.
pub open spec fn all_diverted(evs: Seq<EventModel>) -> bool {
    forall|i: int| 0 <= i < evs.len() ==> is_diverted(#[trigger] evs[i])
}

/// The flattened alt text of a sequence of diverted events: text and code
/// verbatim, breaks as single spaces.
pub open spec fn flatten_alt(evs: Seq<EventModel>) -> Seq<char>
    decreases evs.len(),
{
    if evs.len() == 0 {
        Seq::empty()
    } else {
        diverted_text(evs[0]) + flatten_alt(evs.drop_first())
    }
}

/// The complete self-closing image element for a destination, flattened alt
/// text and optional title.
pub open spec fn image_markup(dest_url: Seq<char>, alt: Seq<char>, title: Seq<char>) -> Seq<char> {
    "<img src=\""@ + spec_escape(dest_url) + "\" alt=\""@ + spec_escape(alt) + "\""@ + (if title.len()
        > 0 {
        " title=\""@ + spec_escape(title) + "\""@
    } else {
        Seq::empty()
    }) + " loading=\"lazy\" />"@
}

proof fn lemma_diverted_run(m: RenderModel, evs: Seq<EventModel>)
    requires
        m.images.len() > 0,
        all_diverted(evs),
    ensures
        run(m, evs).1 == Seq::<char>::empty(),
        run(m, evs).0 == append_alt(m, flatten_alt(evs)),
    decreases evs.len(),
{
    if evs.len() == 0 {
        assert(append_alt(m, flatten_alt(evs)).images =~= m.images) by {
            assert(flatten_alt(evs) =~= Seq::<char>::empty());
            assert(m.images.last().alt + Seq::<char>::empty() =~= m.images.last().alt);
            assert(ImageModel { alt: m.images.last().alt + Seq::<char>::empty(), ..m.images.last() }
                =~= m.images.last());
        }
        assert(append_alt(m, flatten_alt(evs)) =~= m);
        assert(run(m, evs).1 =~= Seq::<char>::empty());
    } else {
        assert(is_diverted(evs[0]));
        let m1 = append_alt(m, diverted_text(evs[0]));
        assert(m1.images.len() == m.images.len());
        assert(all_diverted(evs.drop_first())) by {
            assert(forall|i: int|
                0 <= i < evs.drop_first().len() ==> is_diverted(
                    #[trigger] evs.drop_first()[i],
                ));
        }
        lemma_diverted_run(m1, evs.drop_first());
        assert(append_alt(m1, flatten_alt(evs.drop_first())).images =~= append_alt(
            m,
            flatten_alt(evs),
        ).images) by {
            assert(m1.images.last().alt =~= m.images.last().alt + diverted_text(evs[0]));
            assert(m1.images.last().alt + flatten_alt(evs.drop_first()) =~= m.images.last().alt
                + flatten_alt(evs));
        }
        assert(append_alt(m1, flatten_alt(evs.drop_first())) =~= append_alt(m, flatten_alt(evs)));
        assert(run(m, evs).1 =~= Seq::<char>::empty());
    }
}

/// Image alt flattening: with no image already open, an image's start, any
/// children the renderer diverts, and its end render as one self-closing
/// element whose alt attribute is the children's flattened text; nothing
/// from the children reaches the output directly, and the renderer state is
/// unchanged.
pub proof fn lemma_image_alt_flattening(
    m: RenderModel,
    link_type: crate::event::LinkType,
    dest_url: Seq<char>,
    title: Seq<char>,
    id: Seq<char>,
    children: Seq<EventModel>,
)
    requires
        m.images.len() == 0,
        all_diverted(children),
    ensures
        ({
            let evs = seq![
                EventModel::Start(TagModel::Image { link_type, dest_url, title, id }),
            ] + children + seq![EventModel::End(TagEnd::Image)];
            run(m, evs).0 == m && run(m, evs).1 == image_markup(
                dest_url,
                flatten_alt(children),
                title,
            )
        }),
{
    let start = seq![EventModel::Start(TagModel::Image { link_type, dest_url, title, id })];
    let end = seq![EventModel::End(TagEnd::Image)];
    let evs = start + children + end;
    let img = ImageModel { dest_url, title, alt: Seq::empty() };
    let m1 = RenderModel { images: m.images.push(img), ..m };
    assert(start[0] == EventModel::Start(TagModel::Image { link_type, dest_url, title, id }));
    assert(step(m, start[0]).0 =~= m1);
    assert(step(m, start[0]).1 =~= Seq::<char>::empty());
    lemma_run_append(m, start, children + end);
    assert(evs =~= start + (children + end));
    assert(start.drop_first() =~= Seq::<EventModel>::empty());
    assert(run(step(m, start[0]).0, Seq::<EventModel>::empty()) == (
        step(m, start[0]).0,
        Seq::<char>::empty(),
    ));
    assert(run(m, start).0 == step(m, start[0]).0);
    assert(run(m, start).1 =~= Seq::<char>::empty());
    lemma_run_append(m1, children, end);
    lemma_diverted_run(m1, children);
    let m2 = append_alt(m1, flatten_alt(children));
    assert(m2.images.len() == m1.images.len());
    assert(m2.images.last().alt =~= flatten_alt(children)) by {
        assert(m1.images.last() == img);
        assert(Seq::<char>::empty() + flatten_alt(children) =~= flatten_alt(children));
    }
    assert(end[0] == EventModel::End(TagEnd::Image));
    assert(end.drop_first() =~= Seq::<EventModel>::empty());
    assert(run(step(m2, end[0]).0, Seq::<EventModel>::empty()) == (
        step(m2, end[0]).0,
        Seq::<char>::empty(),
    ));
    assert(run(m2, end).0 == step(m2, end[0]).0);
    assert(run(m2, end).1 =~= step(m2, end[0]).1);
    assert(step(m2, end[0]) == finish_image(m2));
    assert(finish_image(m2).0.images =~= m.images) by {
        assert(m2.images =~= m.images.push(m2.images.last()));
        assert(m2.images.drop_last() =~= m.images);
    }
    assert(finish_image(m2).0 =~= m);
    assert(m2.images.last().dest_url == dest_url && m2.images.last().title == title);
    assert(finish_image(m2).1 =~= image_markup(dest_url, flatten_alt(children), title));
    assert(run(m, evs).0 =~= m);
    assert(run(m, evs).1 =~= image_markup(dest_url, flatten_alt(children), title));
}

/// An event source that can be driven into a sink: the adapter implements
/// it, and `stream_to_writer` renders any such stream to any sink.
pub trait MarkdownStream: Sized {
    /// The stream's invariant.
    spec fn stream_wf(&self) -> bool;

    /// The models of the events still to come, in order.
    spec fn stream_remaining(&self) -> Seq<EventModel>;

    /// Yields the next event: the head of what remains.
    fn next_event(&mut self) -> (r: Option<Event>)
        requires
            old(self).stream_wf(),
        ensures
            final(self).stream_wf(),
            match r {
                Some(e) => old(self).stream_remaining() == seq![e.model()]
                    + final(self).stream_remaining(),
                None => {
                    &&& old(self).stream_remaining() == Seq::<EventModel>::empty()
                    &&& final(self).stream_remaining() == Seq::<EventModel>::empty()
                },
            },
    ;

    /// Drives the stream's events into the writer, converting Markdown to
    /// HTML on the fly, and returns the writer on success: it then holds the
    /// full rendered output of the stream, appended to what it held before.
    fn stream_to_writer<S: ByteSink>(self, writer: S) -> (r: Result<S, MarkflowError>)
        requires
            self.stream_wf(),
            writer.wf(),
        ensures
            match r {
                Ok(s) => s.wf() && s.contents() == writer.contents() + encode_utf8(
                    run(init_model(), self.stream_remaining()).1,
                ) && s.setup() == writer.setup(),
                Err(e) => !writer.infallible() && e is IoError,
            },
    {
        let ghost all = self.stream_remaining();
        let ghost c0 = writer.contents();
        let mut renderer = HtmlRenderer::new(writer);
        let mut it = self;
        let ghost mut done: Seq<EventModel> = Seq::empty();
        proof {
            assert(run(init_model(), done).0 == init_model());
            assert(run(init_model(), done).1 =~= Seq::<char>::empty());
            assert(renderer.sink().contents() =~= c0 + encode_utf8(run(init_model(), done).1));
            assert(done + it.stream_remaining() =~= all);
        }
        loop
            invariant
                it.stream_wf(),
                renderer.sink().wf(),
                renderer.sink().setup() == writer.setup(),
                renderer.sink().infallible() == writer.infallible(),
                c0 == writer.contents(),
                all == self.stream_remaining(),
                done + it.stream_remaining() == all,
                renderer.model() == run(init_model(), done).0,
                renderer.sink().contents() == c0 + encode_utf8(run(init_model(), done).1),
            decreases it.stream_remaining().len(),
        {
            match it.next_event() {
                Some(e) => {
                    let ghost rem0 = it.stream_remaining();
                    match renderer.render_event(e) {
                        Ok(()) => {},
                        Err(err) => {
                            return Err(err);
                        },
                    }
                    proof {
                        lemma_run_snoc(init_model(), done, e.model());
                        lemma_encode_utf8_concat(
                            run(init_model(), done).1,
                            step(run(init_model(), done).0, e.model()).1,
                        );
                        done = done.push(e.model());
                        assert(done + it.stream_remaining() =~= all);
                        assert(renderer.sink().contents() =~= c0 + encode_utf8(
                            run(init_model(), done).1,
                        ));
                    }
                },
                None => {
                    proof {
                        assert(done =~= all);
                    }
                    return Ok(renderer.into_writer());
                },
            }
        }
    }
}

impl MarkdownStream for crate::adapter::MarkdownRsEventIter {
    open spec fn stream_wf(&self) -> bool {
        self.wf()
    }

    open spec fn stream_remaining(&self) -> Seq<EventModel> {
        self.remaining()
    }

    fn next_event(&mut self) -> (r: Option<Event>)
        ensures
            final(self).stream_wf(),
            match r {
                Some(e) => old(self).stream_remaining() == seq![e.model()]
                    + final(self).stream_remaining(),
                None => {
                    &&& old(self).stream_remaining() == Seq::<EventModel>::empty()
                    &&& final(self).stream_remaining() == Seq::<EventModel>::empty()
                },
            },
    {
        self.next()
    }
}


/// The opening markup of a heading, before the closing angle bracket.
pub open spec fn heading_open_out(
    level: HeadingLevel,
    id: Option<Seq<char>>,
    classes: Seq<Seq<char>>,
    attrs: Seq<(Seq<char>, Option<Seq<char>>)>,
) -> Seq<char> {
    "<h"@ + spec_decimal(level.spec_number() as nat) + heading_id_out(id) + heading_classes_out(
        classes,
    ) + attrs_join(attrs, 0)
}

/// The view of an optional string.
pub open spec fn opt_string_view(id: Option<String>) -> Option<Seq<char>> {
    match id {
        Some(s) => Some(s@),
        None => None,
    }
}

/// Writes a heading's opening markup up to, but not including, the closing
/// angle bracket.
#[verifier::rlimit(100)]
#[verifier::spinoff_prover]
fn heading_open_markup(
    level: HeadingLevel,
    id: Option<String>,
    classes: Vec<String>,
    attrs: Vec<(String, Option<String>)>,
    out: &mut String,
)
    ensures
        final(out)@ == old(out)@ + heading_open_out(
            level,
            opt_string_view(id),
            Seq::new(classes@.len(), |k: int| classes@[k]@),
            Seq::new(
                attrs@.len(),
                |k: int|
                    (
                        attrs@[k].0@,
                        match attrs@[k].1 {
                            Some(v) => Some(v@),
                            None => None,
                        },
                    ),
            ),
        ),
{
    out.append("<h");
                push_decimal_str(level.number() as u64, out);
                match &id {
                    Some(s) => {
                        out.append(" id=\"");
                        escape_into(s.as_str(), out);
                        out.append("\"");
                    },
                    None => {},
                }
                proof {
                    assert(out@ =~= old(out)@ + "<h"@ + spec_decimal(
                        level.spec_number() as nat,
                    ) + heading_id_out(match id {
                        Some(s) => Some(s@),
                        None => None,
                    }));
                }
                if classes.len() > 0 {
                    out.append(" class=\"");
                    let mut i: usize = 0;
                    let ghost cls = Seq::new(classes@.len(), |k: int| classes@[k]@);
                    while i < classes.len()
                        invariant
                            i <= classes@.len(),
                            cls == Seq::new(classes@.len(), |k: int| classes@[k]@),
                            cls.len() > 0,
                            out@ == old(out)@ + "<h"@ + spec_decimal(level.spec_number() as nat)
                                + heading_id_out(
                                match id {
                                    Some(s) => Some(s@),
                                    None => None,
                                },
                            ) + " class=\""@ + classes_join_upto(cls, i as int),
                        decreases classes@.len() - i,
                    {
                        if i > 0 {
                            out.append(" ");
                        }
                        escape_into(classes[i].as_str(), out);
                        proof {
                            reveal_strlit(" ");
                            assert(" "@ =~= seq![' ']);
                            assert(cls[i as int] == classes@[i as int]@);
                            lemma_classes_join_upto_snoc(cls, i as int);
                            assert(out@ =~= old(out)@ + "<h"@ + spec_decimal(
                                level.spec_number() as nat,
                            ) + heading_id_out(
                                match id {
                                    Some(s) => Some(s@),
                                    None => None,
                                },
                            ) + " class=\""@ + classes_join_upto(cls, i as int + 1));
                        }
                        i = i + 1;
                    }
                    out.append("\"");
                    proof {
                        lemma_classes_join_upto_full(cls);
                    }
                }
                let mut j: usize = 0;
                let ghost base = out@;
                let ghost ats = Seq::new(
                    attrs@.len(),
                    |k: int|
                        (
                            attrs@[k].0@,
                            match attrs@[k].1 {
                                Some(v) => Some(v@),
                                None => None,
                            },
                        ),
                );
                while j < attrs.len()
                    invariant
                        j <= attrs@.len(),
                        ats == Seq::new(
                            attrs@.len(),
                            |k: int|
                                (
                                    attrs@[k].0@,
                                    match attrs@[k].1 {
                                        Some(v) => Some(v@),
                                        None => None,
                                    },
                                ),
                        ),
                        out@ == base + attrs_join_upto(ats, j as int),
                    decreases attrs@.len() - j,
                {
                    out.append(" ");
                    let pair = &attrs[j];
                    out.append(pair.0.as_str());
                    match &pair.1 {
                        Some(v) => {
                            out.append("=\"");
                            escape_into(v.as_str(), out);
                            out.append("\"");
                        },
                        None => {},
                    }
                    proof {
                        reveal_strlit(" ");
                        assert(" "@ =~= seq![' ']);
                        assert(ats[j as int] == (
                            attrs@[j as int].0@,
                            match attrs@[j as int].1 {
                                Some(v) => Some(v@),
                                None => None,
                            },
                        ));
                        lemma_attrs_join_upto_snoc(ats, j as int);
                        assert(out@ =~= base + attrs_join_upto(ats, j as int + 1));
                    }
                    j = j + 1;
                }
                proof {
                    lemma_attrs_join_upto_full(ats);
                    lemma_classes_equiv(Seq::new(classes@.len(), |k: int| classes@[k]@));
                    assert(out@ =~= old(out)@ + heading_open_out(
                        level,
                        opt_string_view(id),
                        Seq::new(classes@.len(), |k: int| classes@[k]@),
                        ats,
                    ));
                }
            }

/// The space-joined escaped classes up to index `i`.
pub open spec fn classes_join_upto(classes: Seq<Seq<char>>, i: int) -> Seq<char>
    decreases i,
{
    if i <= 0 || i > classes.len() {
        Seq::empty()
    } else {
        classes_join_upto(classes, i - 1) + (if i - 1 > 0 {
            seq![' ']
        } else {
            Seq::empty()
        }) + spec_escape(classes[i - 1])
    }
}

proof fn lemma_classes_join_upto_snoc(classes: Seq<Seq<char>>, i: int)
    requires
        0 <= i < classes.len(),
    ensures
        classes_join_upto(classes, i + 1) == classes_join_upto(classes, i) + (if i > 0 {
            seq![' ']
        } else {
            Seq::<char>::empty()
        }) + spec_escape(classes[i]),
{
}

proof fn lemma_classes_join_upto_full(classes: Seq<Seq<char>>)
    ensures
        classes_join_upto(classes, classes.len() as int) == classes_join(classes, 0),
{
    lemma_classes_join_agree(classes, 0);
}

proof fn lemma_classes_join_agree(classes: Seq<Seq<char>>, i: int)
    requires
        0 <= i <= classes.len(),
    ensures
        classes_join_upto(classes, classes.len() as int) == classes_join_upto(classes, i)
            + classes_join(classes, i),
    decreases classes.len() - i,
{
    if i == classes.len() {
        assert(classes_join(classes, i) =~= Seq::<char>::empty());
        assert(classes_join_upto(classes, i) + classes_join(classes, i) =~= classes_join_upto(
            classes,
            i,
        ));
    } else {
        lemma_classes_join_agree(classes, i + 1);
        lemma_classes_join_upto_snoc(classes, i);
        assert(classes_join_upto(classes, classes.len() as int) =~= classes_join_upto(classes, i)
            + classes_join(classes, i));
    }
}

proof fn lemma_classes_equiv(classes: Seq<Seq<char>>)
    ensures
        classes.len() > 0 ==> " class=\""@ + classes_join_upto(classes, classes.len() as int)
            + "\""@ == heading_classes_out(classes),
        classes.len() == 0 ==> heading_classes_out(classes) == Seq::<char>::empty(),
{
    if classes.len() > 0 {
        lemma_classes_join_upto_full(classes);
    }
}

/// The joined attribute markup up to index `i`.
pub open spec fn attrs_join_upto(attrs: Seq<(Seq<char>, Option<Seq<char>>)>, i: int) -> Seq<char>
    decreases i,
{
    if i <= 0 || i > attrs.len() {
        Seq::empty()
    } else {
        attrs_join_upto(attrs, i - 1) + attr_out(attrs[i - 1])
    }
}

proof fn lemma_attrs_join_upto_snoc(attrs: Seq<(Seq<char>, Option<Seq<char>>)>, i: int)
    requires
        0 <= i < attrs.len(),
    ensures
        attrs_join_upto(attrs, i + 1) == attrs_join_upto(attrs, i) + attr_out(attrs[i]),
{
}

proof fn lemma_attrs_join_upto_full(attrs: Seq<(Seq<char>, Option<Seq<char>>)>)
    ensures
        attrs_join_upto(attrs, attrs.len() as int) == attrs_join(attrs, 0),
{
    lemma_attrs_join_agree(attrs, 0);
}

proof fn lemma_attrs_join_agree(attrs: Seq<(Seq<char>, Option<Seq<char>>)>, i: int)
    requires
        0 <= i <= attrs.len(),
    ensures
        attrs_join_upto(attrs, attrs.len() as int) == attrs_join_upto(attrs, i) + attrs_join(
            attrs,
            i,
        ),
    decreases attrs.len() - i,
{
    if i == attrs.len() {
        assert(attrs_join(attrs, i) =~= Seq::<char>::empty());
        assert(attrs_join_upto(attrs, i) + attrs_join(attrs, i) =~= attrs_join_upto(attrs, i));
    } else {
        lemma_attrs_join_agree(attrs, i + 1);
        lemma_attrs_join_upto_snoc(attrs, i);
        assert(attrs_join_upto(attrs, attrs.len() as int) =~= attrs_join_upto(attrs, i)
            + attrs_join(attrs, i));
    }
}


} // verus!
