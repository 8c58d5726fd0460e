//! The buffered rendering front end: parse a whole source text, render its
//! event sequence to an HTML string, and collect the document's top-level
//! headings with unique anchor slugs.
//!
//! One slug policy governs the result: collected headings carry trimmed
//! text, a `section` fallback for empty text, and `-1`, `-2`, ... suffixes
//! for uniqueness, and those same unique slugs are written into the matching
//! heading tags of the HTML, so every listed slug anchors its heading.
//! Deeper headings, which the list does not track, keep the pipeline's
//! inline ids.

use vstd::prelude::*;

use vstd::utf8::encode_utf8;

use crate::MarkflowError;
use crate::adapter::MarkdownRsEventIter;
use crate::chars::char_is_whitespace;
use crate::chars::chars_to_string;
use crate::chars::unicode_whitespace;
use crate::chars::utf8_string;
use crate::event::Event;
use crate::event::EventModel;
use crate::event::HeadingLevel;
use crate::event::Tag;
use crate::event::TagEnd;
use crate::event::TagModel;
use crate::event::models_of;
use crate::md::md_accepts;
use crate::md::md_doc;
use crate::md::parse_document_with;
use crate::tree::model_events;
use crate::renderer::HtmlRenderer;
use crate::renderer::init_model;
use crate::renderer::run;
use crate::sink::BufferSink;
use crate::slug::is_first_free_candidate;
use crate::slug::slugify;
use crate::slug::spec_slug_base;
use crate::slug::strings_view;

verus! {

/// Rendering options; every feature defaults to on. Smart punctuation is
/// accepted for interface compatibility; the external parser used here has
/// no such transform, so the flag has no effect on the output.
#[derive(Debug, Clone, Copy, PartialEq, Eq, Structural)]
pub struct Options {
    pub gfm_tables: bool,
    pub gfm_tasklists: bool,
    pub footnotes: bool,
    pub smart_punct: bool,
}

impl Default for Options {
    /// All features enabled.
    fn default() -> (r: Self)
        ensures
            r.gfm_tables && r.gfm_tasklists && r.footnotes && r.smart_punct,
    {
        Options { gfm_tables: true, gfm_tasklists: true, footnotes: true, smart_punct: true }
    }
}

/// One collected heading: its depth, its plain text, and its unique anchor
/// slug.
#[derive(Debug, Clone, PartialEq)]
pub struct Heading {
    pub depth: u8,
    pub text: String,
    pub slug: String,
}

/// The outcome of a buffered render: the HTML and the collected headings.
#[derive(Debug, Clone, PartialEq)]
pub struct RenderResult {
    pub html: String,
    pub headings: Vec<Heading>,
}

/// Leading whitespace removed.
pub open spec fn spec_trim_start(s: Seq<char>) -> Seq<char>
    decreases s.len(),
{
    if s.len() > 0 && unicode_whitespace(s[0]) {
        spec_trim_start(s.drop_first())
    } else {
        s
    }
}

/// Trailing whitespace removed.
pub open spec fn spec_trim_end(s: Seq<char>) -> Seq<char>
    decreases s.len(),
{
    if s.len() > 0 && unicode_whitespace(s.last()) {
        spec_trim_end(s.drop_last())
    } else {
        s
    }
}

/// Whitespace removed from both ends.
pub open spec fn spec_trim(s: Seq<char>) -> Seq<char> {
    spec_trim_end(spec_trim_start(s))
}

/// Removes leading and trailing Unicode whitespace.
fn trim_chars(s: &String) -> (r: String)
    ensures
        r@ == spec_trim(s@),
{
    let text = s.as_str();
    let n = text.unicode_len();
    let mut start: usize = 0;
    proof {
        assert(text@.skip(0) =~= text@);
    }
    while start < n && char_is_whitespace(text.get_char(start))
        invariant
            start <= n,
            n == text@.len(),
            spec_trim_start(text@) == spec_trim_start(text@.skip(start as int)),
        decreases n - start,
    {
        proof {
            assert(text@.skip(start as int)[0] == text@[start as int]);
            assert(text@.skip(start as int).drop_first() =~= text@.skip(start as int + 1));
        }
        start = start + 1;
    }
    proof {
        if start < n {
            assert(spec_trim_start(text@.skip(start as int)) == text@.skip(start as int));
        } else {
            assert(text@.skip(start as int) =~= Seq::<char>::empty());
        }
        assert(spec_trim_start(text@) == text@.skip(start as int));
    }
    let mut end: usize = n;
    while end > start && char_is_whitespace(text.get_char(end - 1))
        invariant
            start <= end <= n,
            n == text@.len(),
            spec_trim_start(text@) == text@.skip(start as int),
            spec_trim_end(text@.skip(start as int)) == spec_trim_end(
                text@.subrange(start as int, end as int),
            ),
        decreases end,
    {
        proof {
            let cur = text@.subrange(start as int, end as int);
            assert(cur.last() == text@[end - 1]);
            assert(cur.drop_last() =~= text@.subrange(start as int, end as int - 1));
        }
        end = end - 1;
    }
    proof {
        let cur = text@.subrange(start as int, end as int);
        if end > start {
            assert(cur.last() == text@[end - 1]);
            assert(spec_trim_end(cur) == cur);
        } else {
            assert(cur =~= Seq::<char>::empty());
        }
        assert(spec_trim(text@) == text@.subrange(start as int, end as int));
    }
    let mut out: Vec<char> = Vec::new();
    let mut i: usize = start;
    while i < end
        invariant
            start <= i <= end <= n,
            n == text@.len(),
            out@ == text@.subrange(start as int, i as int),
        decreases end - i,
    {
        out.push(text.get_char(i));
        assert(out@ =~= text@.subrange(start as int, i as int + 1));
        i = i + 1;
    }
    let r = chars_to_string(&out);
    proof {
        assert(r@ == text@.subrange(start as int, end as int));
    }
    r
}

/// Whether headings of this level are collected: the top three levels.
pub open spec fn spec_tracked_level(l: HeadingLevel) -> bool {
    l is H1 || l is H2 || l is H3
}

fn tracked_level(l: HeadingLevel) -> (r: bool)
    ensures
        r == spec_tracked_level(l),
{
    match l {
        HeadingLevel::H1 => true,
        HeadingLevel::H2 => true,
        HeadingLevel::H3 => true,
        _ => false,
    }
}

/// The running state of heading collection.
#[verifier::ext_equal]
pub ghost struct CollectModel {
    pub current: Option<(HeadingLevel, Seq<char>)>,
    pub found: Seq<(HeadingLevel, Seq<char>)>,
}

/// One step of heading collection: a tracked heading start opens a capture,
/// its matching end records it, text and code append to it, breaks append a
/// space.
pub open spec fn collect_step(st: CollectModel, e: EventModel) -> CollectModel {
    match e {
        EventModel::Start(TagModel::Heading { level, .. }) => {
            if spec_tracked_level(level) {
                CollectModel { current: Some((level, Seq::empty())), found: st.found }
            } else {
                st
            }
        },
        EventModel::End(TagEnd::Heading(level)) => {
            if spec_tracked_level(level) && (st.current matches Some(c) && c.0 == level) {
                CollectModel { current: None, found: st.found.push(st.current.unwrap()) }
            } else {
                st
            }
        },
        EventModel::Text(t) => {
            match st.current {
                Some(c) => CollectModel { current: Some((c.0, c.1 + t)), found: st.found },
                None => st,
            }
        },
        EventModel::Code(t) => {
            match st.current {
                Some(c) => CollectModel { current: Some((c.0, c.1 + t)), found: st.found },
                None => st,
            }
        },
        EventModel::SoftBreak => {
            match st.current {
                Some(c) => CollectModel {
                    current: Some((c.0, c.1.push(' '))),
                    found: st.found,
                },
                None => st,
            }
        },
        EventModel::HardBreak => {
            match st.current {
                Some(c) => CollectModel {
                    current: Some((c.0, c.1.push(' '))),
                    found: st.found,
                },
                None => st,
            }
        },
        _ => st,
    }
}

/// Folds heading collection over an event sequence.
pub open spec fn collect_run(st: CollectModel, evs: Seq<EventModel>) -> CollectModel
    decreases evs.len(),
{
    if evs.len() == 0 {
        st
    } else {
        collect_run(collect_step(st, evs[0]), evs.drop_first())
    }
}

proof fn lemma_collect_run_snoc(st: CollectModel, s: Seq<EventModel>, e: EventModel)
    ensures
        collect_run(st, s.push(e)) == collect_step(collect_run(st, s), e),
    decreases s.len(),
{
    if s.len() == 0 {
        assert(s.push(e)[0] == e);
        assert(s.push(e).drop_first() =~= Seq::<EventModel>::empty());
        assert(collect_run(collect_step(st, e), Seq::<EventModel>::empty()) == collect_step(
            st,
            e,
        ));
    } else {
        assert(s.push(e)[0] == s[0]);
        assert(s.push(e).drop_first() =~= s.drop_first().push(e));
        lemma_collect_run_snoc(collect_step(st, s[0]), s.drop_first(), e);
    }
}

/// The headings collected from a whole event sequence: the fold's findings,
/// with a still-open capture recorded as well.
pub open spec fn collected_headings(evs: Seq<EventModel>) -> Seq<(HeadingLevel, Seq<char>)> {
    let st = collect_run(CollectModel { current: None, found: Seq::empty() }, evs);
    match st.current {
        Some(c) => st.found.push(c),
        None => st.found,
    }
}

/// The raw captures as level-and-text pairs at the specification level.
pub open spec fn raw_models(v: Seq<(HeadingLevel, String)>) -> Seq<(HeadingLevel, Seq<char>)> {
    Seq::new(v.len(), |i: int| (v[i].0, v[i].1@))
}

/// Walks the events once and captures the text of every tracked heading.
fn collect_raw(events: &Vec<Event>) -> (r: Vec<(HeadingLevel, String)>)
    ensures
        raw_models(r@) == collected_headings(models_of(events@)),
{
    let ghost all = models_of(events@);
    let ghost init = CollectModel { current: None, found: Seq::empty() };
    let mut current: Option<(HeadingLevel, String)> = None;
    let mut found: Vec<(HeadingLevel, String)> = Vec::new();
    let mut i: usize = 0;
    proof {
        assert(all.subrange(0, 0) =~= Seq::<EventModel>::empty());
        assert(raw_models(found@) =~= Seq::<(HeadingLevel, Seq<char>)>::empty());
    }
    while i < events.len()
        invariant
            i <= events@.len(),
            all == models_of(events@),
            ({
                let st = collect_run(init, all.subrange(0, i as int));
                &&& raw_models(found@) == st.found
                &&& (match (current, st.current) {
                    (Some(c), Some(m)) => c.0 == m.0 && c.1@ == m.1,
                    (None, None) => true,
                    _ => false,
                })
            }),
        decreases events@.len() - i,
    {
        let ghost pre = all.subrange(0, i as int);
        let ghost st0 = collect_run(init, pre);
        proof {
            assert(all.subrange(0, i as int + 1) =~= pre.push(all[i as int]));
            lemma_collect_run_snoc(init, pre, all[i as int]);
            assert(all[i as int] == events@[i as int].model());
        }
        let e = &events[i];
        match e {
            Event::Start(Tag::Heading { level, .. }) => {
                if tracked_level(*level) {
                    current = Some((*level, String::new()));
                }
            },
            Event::End(end) => {
                match end {
                    TagEnd::Heading(level) => {
                        if tracked_level(*level) {
                            let cur = current;
                            match cur {
                                Some(c) => {
                                    if levels_equal(c.0, *level) {
                                        found.push(c);
                                        current = None;
                                        proof {
                                            assert(raw_models(found@) =~= st0.found.push(
                                                st0.current.unwrap(),
                                            ));
                                        }
                                    } else {
                                        current = Some(c);
                                    }
                                },
                                None => {
                                    current = None;
                                },
                            }
                        }
                    },
                    _ => {},
                }
            },
            Event::Text(t) => {
                let cur = current;
                match cur {
                    Some(mut c) => {
                        c.1.append(t.as_str());
                        current = Some(c);
                    },
                    None => {
                        current = None;
                    },
                }
            },
            Event::Code(t) => {
                let cur = current;
                match cur {
                    Some(mut c) => {
                        c.1.append(t.as_str());
                        current = Some(c);
                    },
                    None => {
                        current = None;
                    },
                }
            },
            Event::SoftBreak => {
                let cur = current;
                match cur {
                    Some(mut c) => {
                        crate::chars::push_char(&mut c.1, ' ');
                        current = Some(c);
                    },
                    None => {
                        current = None;
                    },
                }
            },
            Event::HardBreak => {
                let cur = current;
                match cur {
                    Some(mut c) => {
                        crate::chars::push_char(&mut c.1, ' ');
                        current = Some(c);
                    },
                    None => {
                        current = None;
                    },
                }
            },
            _ => {},
        }
        i = i + 1;
    }
    proof {
        assert(all.subrange(0, all.len() as int) =~= all);
    }
    let last = current;
    match last {
        Some(c) => {
            found.push(c);
            proof {
                let st = collect_run(init, all);
                assert(raw_models(found@) =~= st.found.push(st.current.unwrap()));
            }
        },
        None => {},
    }
    found
}

fn levels_equal(a: HeadingLevel, b: HeadingLevel) -> (r: bool)
    ensures
        r == (a == b),
{
    a.number() == b.number()
}

/// The slug source of a heading text: the text itself, or `section` when it
/// is empty.
pub open spec fn slug_source(t: Seq<char>) -> Seq<char> {
    if t.len() == 0 {
        "section"@
    } else {
        t
    }
}

/// The view of collected headings: depth, text, slug.
pub open spec fn headings_view(v: Seq<Heading>) -> Seq<(u8, Seq<char>, Seq<char>)> {
    Seq::new(v.len(), |i: int| (v[i].depth, v[i].text@, v[i].slug@))
}

/// What the heading list promises, entry by entry: the depth and trimmed
/// text of the capture, and a slug that is the first free uniqueness
/// candidate of the text's base slug against all earlier slugs.
pub open spec fn heading_entry_ok(
    hs: Seq<(u8, Seq<char>, Seq<char>)>,
    raw: Seq<(HeadingLevel, Seq<char>)>,
    i: int,
) -> bool {
    &&& hs[i].0 == raw[i].0.spec_number()
    &&& hs[i].1 == spec_trim(raw[i].1)
    &&& is_first_free_candidate(
        Seq::new(i as nat, |j: int| hs[j].2),
        spec_slug_base(slug_source(spec_trim(raw[i].1))),
        hs[i].2,
    )
}

/// Whether a heading list matches the raw captures of an event sequence.
pub open spec fn headings_match(
    hs: Seq<(u8, Seq<char>, Seq<char>)>,
    raw: Seq<(HeadingLevel, Seq<char>)>,
) -> bool {
    &&& hs.len() == raw.len()
    &&& forall|i: int| 0 <= i < hs.len() ==> heading_entry_ok(hs, raw, i)
}

/// Builds the heading list from the raw captures: trimmed text, `section`
/// fallback, unique slugs in order of appearance.
fn slug_headings(raw: Vec<(HeadingLevel, String)>) -> (r: Vec<Heading>)
    ensures
        headings_match(headings_view(r@), raw_models(raw@)),
{
    let ghost rawm = raw_models(raw@);
    let mut used: Vec<String> = Vec::new();
    let mut headings: Vec<Heading> = Vec::new();
    let mut i: usize = 0;
    while i < raw.len()
        invariant
            i <= raw@.len(),
            rawm == raw_models(raw@),
            headings@.len() == i,
            strings_view(used@) == Seq::new(i as nat, |j: int| headings_view(headings@)[j].2),
            forall|j: int| 0 <= j < i ==> heading_entry_ok(headings_view(headings@), rawm, j),
        decreases raw@.len() - i,
    {
        let ghost hs0 = headings_view(headings@);
        let ghost used0 = used@;
        let level = raw[i].0;
        let trimmed = trim_chars(&raw[i].1);
        let ghost base = spec_slug_base(slug_source(spec_trim(rawm[i as int].1)));
        let slug = if trimmed.as_str().unicode_len() == 0 {
            slugify("section", &mut used)
        } else {
            slugify(trimmed.as_str(), &mut used)
        };
        proof {
            assert(trimmed@ == spec_trim(rawm[i as int].1));
            if trimmed@.len() == 0 {
                assert("section"@ == slug_source(spec_trim(rawm[i as int].1)));
            }
            assert(is_first_free_candidate(strings_view(used0), base, slug@));
        }
        headings.push(Heading { depth: level.number(), text: trimmed, slug });
        proof {
            let hs1 = headings_view(headings@);
            assert(hs1 =~= hs0.push(
                (headings@.last().depth, headings@.last().text@, headings@.last().slug@),
            ));
            assert(hs1[i as int].2 == slug@);
            assert forall|j: int| 0 <= j < i implies hs1[j] == hs0[j] by {}
            assert(strings_view(used@) =~= Seq::new(
                i as nat + 1,
                |j: int| hs1[j].2,
            )) by {
                assert(strings_view(used@) =~= strings_view(used0).push(slug@));
            }
            assert forall|j: int| 0 <= j < i + 1 implies heading_entry_ok(hs1, rawm, j) by {
                if j < i {
                    assert(heading_entry_ok(hs0, rawm, j));
                    assert(Seq::new(j as nat, |k: int| hs1[k].2) =~= Seq::new(
                        j as nat,
                        |k: int| hs0[k].2,
                    ));
                } else {
                    assert(Seq::new(j as nat, |k: int| hs1[k].2) =~= strings_view(used0));
                }
            }
        }
        i = i + 1;
    }
    proof {
        assert(rawm.len() == raw@.len());
    }
    headings
}

/// The slugs of a heading list, in order.
pub open spec fn slugs_view(hs: Seq<Heading>) -> Seq<Seq<char>> {
    Seq::new(hs.len(), |i: int| hs[i].slug@)
}

/// Replaces the id of every tracked heading start with the next anchor slug,
/// in order of appearance; headings beyond the slug list, and untracked
/// levels, keep their inline id.
pub open spec fn inject_ids(
    evs: Seq<EventModel>,
    slugs: Seq<Seq<char>>,
    k: nat,
) -> Seq<EventModel>
    decreases evs.len(),
{
    if evs.len() == 0 {
        Seq::empty()
    } else {
        match evs[0] {
            EventModel::Start(TagModel::Heading { level, id, classes, attrs }) => {
                if spec_tracked_level(level) {
                    let new_id = if k < slugs.len() {
                        Some(slugs[k as int])
                    } else {
                        id
                    };
                    seq![
                        EventModel::Start(
                            TagModel::Heading { level, id: new_id, classes, attrs },
                        ),
                    ] + inject_ids(evs.drop_first(), slugs, k + 1)
                } else {
                    seq![evs[0]] + inject_ids(evs.drop_first(), slugs, k)
                }
            },
            _ => seq![evs[0]] + inject_ids(evs.drop_first(), slugs, k),
        }
    }
}

/// Rewrites the events so that each tracked heading start carries its anchor
/// slug as id.
fn inject_slugs(events: Vec<Event>, headings: &Vec<Heading>) -> (r: Vec<Event>)
    ensures
        models_of(r@) == inject_ids(models_of(events@), slugs_view(headings@), 0),
{
    let ghost all = models_of(events@);
    let ghost slugs = slugs_view(headings@);
    let mut events = events;
    let mut out: Vec<Event> = Vec::new();
    let mut k: usize = 0;
    let total_events = events.len();
    proof {
        assert(models_of(out@) =~= Seq::<EventModel>::empty());
        assert(models_of(out@) + inject_ids(models_of(events@), slugs, k as nat) =~= inject_ids(
            all,
            slugs,
            0,
        ));
    }
    while events.len() > 0
        invariant
            k as nat + events@.len() <= total_events as nat,
            slugs == slugs_view(headings@),
            models_of(out@) + inject_ids(models_of(events@), slugs, k as nat) == inject_ids(
                all,
                slugs,
                0,
            ),
        decreases events@.len(),
    {
        let ghost evs0 = models_of(events@);
        let ghost out0 = models_of(out@);
        let e = events.remove(0);
        proof {
            assert(models_of(events@) =~= evs0.drop_first());
            assert(evs0[0] == e.model());
        }
        match e {
            Event::Start(tag) => {
                match tag {
                    Tag::Heading { level, id, classes, attrs } => {
                        if tracked_level(level) && k < headings.len() {
                            let slug = headings[k].slug.clone();
                            proof {
                                assert(slug@ == slugs[k as int]);
                            }
                            out.push(
                                Event::Start(
                                    Tag::Heading { level, id: Some(slug), classes, attrs },
                                ),
                            );
                            k = k + 1;
                        } else {
                            if tracked_level(level) {
                                k = k + 1;
                            }
                            out.push(Event::Start(Tag::Heading { level, id, classes, attrs }));
                        }
                    },
                    _ => {
                        out.push(Event::Start(tag));
                    },
                }
            },
            _ => {
                out.push(e);
            },
        }
        proof {
            assert(models_of(out@) =~= out0.push(out@.last().model()));
            assert(models_of(out@) + inject_ids(models_of(events@), slugs, k as nat)
                =~= inject_ids(all, slugs, 0));
        }
    }
    proof {
        assert(inject_ids(models_of(events@), slugs, k as nat) =~= Seq::<EventModel>::empty());
        assert(models_of(out@) =~= inject_ids(all, slugs, 0));
    }
    out
}

/// Renders Markdown to HTML and collects the top-level headings: the parsed
/// document's canonical event sequence determines the heading list with its
/// unique anchor slugs, those slugs are written into the matching heading
/// tags, and the rewritten sequence renders to the HTML, so every listed
/// slug anchors its heading. Fails exactly when the parser rejects the
/// source.
pub fn render(source: &str, options: &Options) -> (r: Result<RenderResult, MarkflowError>)
    ensures
        r is Ok <==> md_accepts(
            source@,
            options.gfm_tables,
            options.gfm_tasklists,
            options.footnotes,
        ),
        match r {
            Ok(rr) => ({
                let evs = model_events(
                    md_doc(
                        source@,
                        options.gfm_tables,
                        options.gfm_tasklists,
                        options.footnotes,
                    ),
                    false,
                );
                &&& headings_match(headings_view(rr.headings@), collected_headings(evs))
                &&& rr.html@ == run(init_model(), inject_ids(evs, slugs_view(rr.headings@), 0)).1
            }),
            Err(e) => e is MarkdownAdapter,
        },
{
    let tree = match parse_document_with(
        source,
        options.gfm_tables,
        options.gfm_tasklists,
        options.footnotes,
    ) {
        Ok(tree) => tree,
        Err(e) => {
            return Err(e);
        },
    };
    let ghost t = tree;
    let mut it = MarkdownRsEventIter::from_tree(tree);
    let ghost total = it.remaining();
    let mut events: Vec<Event> = Vec::new();
    let mut finished = false;
    proof {
        assert(models_of(events@) =~= Seq::<EventModel>::empty());
        assert(models_of(events@) + it.remaining() =~= total);
    }
    while !finished
        invariant
            it.wf(),
            models_of(events@) + it.remaining() == total,
            finished ==> it.remaining().len() == 0,
        decreases it.remaining().len() + (if finished {
            0int
        } else {
            1int
        }),
    {
        let ghost evs0 = events@;
        match it.next() {
            Some(e) => {
                events.push(e);
                proof {
                    assert(models_of(events@) =~= models_of(evs0).push(
                        events@.last().model(),
                    ));
                    assert(models_of(events@) + it.remaining() =~= total);
                }
            },
            None => {
                finished = true;
            },
        }
    }
    proof {
        assert(models_of(events@) =~= total);
    }
    let raw = collect_raw(&events);
    let headings = slug_headings(raw);
    proof {
        crate::tree::lemma_model_events_agree(t, false);
    }
    let events = inject_slugs(events, &headings);
    let ghost injected = models_of(events@);
    let renderer = HtmlRenderer::new(BufferSink::new());
    let sink = match renderer.render(events) {
        Ok(s) => s,
        Err(e) => {
            proof {
                assert(false);
            }
            return Err(e);
        },
    };
    let bytes = sink.into_bytes();
    proof {
        assert(bytes@ =~= encode_utf8(run(init_model(), injected).1));
    }
    match utf8_string(bytes) {
        Ok(html) => {
            proof {
                broadcast use vstd::utf8::encode_utf8_decode_utf8;

                assert(vstd::utf8::decode_utf8(encode_utf8(html@)) == html@);
                assert(html@ == run(init_model(), injected).1);
            }
            Ok(RenderResult { html, headings })
        },
        Err(e) => {
            proof {
                broadcast use vstd::utf8::encode_utf8_valid_utf8;

                assert(vstd::utf8::valid_utf8(encode_utf8(run(init_model(), injected).1)));
                assert(false);
            }
            Err(e)
        },
    }
}

} // verus!
