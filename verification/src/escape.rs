//! HTML escaping: the five HTML-special characters are replaced by entities,
//! every other character passes through verbatim. Text-only escaping (used
//! for inert frontmatter blocks) replaces only `&`, `<` and `>`.

use vstd::prelude::*;

use crate::chars::push_char;

verus! {

/// The entity replacement of one character under full HTML escaping.
pub open spec fn spec_escape_char(c: char) -> Seq<char> {
    if c == '&' {
        "&amp;"@
    } else if c == '<' {
        "&lt;"@
    } else if c == '>' {
        "&gt;"@
    } else if c == '"' {
        "&quot;"@
    } else if c == '\'' {
        "&#39;"@
    } else {
        seq![c]
    }
}

/// Full HTML escaping of a character sequence: each special character becomes
/// its entity, every other character is kept.
pub open spec fn spec_escape(s: Seq<char>) -> Seq<char>
    decreases s.len(),
{
    if s.len() == 0 {
        Seq::empty()
    } else {
        spec_escape_char(s[0]) + spec_escape(s.drop_first())
    }
}

/// Whether a character is one of the five HTML-special characters.
pub open spec fn spec_html_special(c: char) -> bool {
    c == '&' || c == '<' || c == '>' || c == '"' || c == '\''
}

/// Appends the full HTML escaping of `s` to `out`.
pub(crate) fn escape_into(s: &str, out: &mut String)
    ensures
        final(out)@ == old(out)@ + spec_escape(s@),
{
    let n = s.unicode_len();
    let mut i: usize = 0;
    while i < n
        invariant
            i <= n,
            n == s@.len(),
            out@ == old(out)@ + spec_escape(s@.subrange(0, i as int)),
        decreases n - i,
    {
        let c = s.get_char(i);
        let ghost pre = s@.subrange(0, i as int);
        if c == '&' {
            out.append("&amp;");
        } else if c == '<' {
            out.append("&lt;");
        } else if c == '>' {
            out.append("&gt;");
        } else if c == '"' {
            out.append("&quot;");
        } else if c == '\'' {
            out.append("&#39;");
        } else {
            push_char(out, c);
            assert(out@ =~= old(out)@ + spec_escape(pre) + spec_escape_char(c));
        }
        proof {
            assert(s@.subrange(0, i as int + 1) =~= pre.push(c));
            lemma_escape_push(pre, c);
            assert(out@ =~= old(out)@ + spec_escape(pre.push(c)));
        }
        i = i + 1;
    }
    proof {
        assert(s@.subrange(0, n as int) =~= s@);
    }
}

/// Full HTML escaping: `&` to `&amp;`, `<` to `&lt;`, `>` to `&gt;`, `"` to
/// `&quot;`, `'` to `&#39;`; all other characters are returned unchanged.
pub fn sanitize_html(s: &str) -> (r: String)
    ensures
        r@ == spec_escape(s@),
{
    let mut out = String::new();
    escape_into(s, &mut out);
    out
}

/// Appending one character to the input appends its escaping to the output.
proof fn lemma_escape_push(s: Seq<char>, c: char)
    ensures
        spec_escape(s.push(c)) == spec_escape(s) + spec_escape_char(c),
    decreases s.len(),
{
    if s.len() == 0 {
        assert(s.push(c)[0] == c);
        assert(s.push(c).drop_first() =~= Seq::<char>::empty());
        assert(spec_escape(Seq::<char>::empty()) =~= Seq::<char>::empty());
        assert(spec_escape(s.push(c)) =~= spec_escape_char(c));
        assert(spec_escape(s) + spec_escape_char(c) =~= spec_escape_char(c));
    } else {
        assert(s.push(c).drop_first() =~= s.drop_first().push(c));
        lemma_escape_push(s.drop_first(), c);
        assert(spec_escape(s.push(c)) =~= spec_escape(s) + spec_escape_char(c));
    }
}

/// Escaping distributes over concatenation.
pub proof fn lemma_escape_concat(a: Seq<char>, b: Seq<char>)
    ensures
        spec_escape(a + b) == spec_escape(a) + spec_escape(b),
    decreases b.len(),
{
    if b.len() == 0 {
        assert(a + b =~= a);
        assert(spec_escape(a) + spec_escape(b) =~= spec_escape(a));
    } else {
        assert((a + b).drop_last() =~= a + b.drop_last());
        assert(a + b =~= (a + b.drop_last()).push(b.last()));
        lemma_escape_concat(a, b.drop_last());
        lemma_escape_push(a + b.drop_last(), b.last());
        lemma_escape_push(b.drop_last(), b.last());
        assert(b.drop_last().push(b.last()) =~= b);
        assert(spec_escape(a + b) =~= spec_escape(a) + spec_escape(b));
    }
}

/// Escaping a sequence that contains no HTML-special character returns it
/// unchanged.
pub proof fn lemma_escape_plain_identity(s: Seq<char>)
    requires
        forall|i: int| 0 <= i < s.len() ==> !spec_html_special(#[trigger] s[i]),
    ensures
        spec_escape(s) == s,
    decreases s.len(),
{
    if s.len() == 0 {
        assert(spec_escape(s) =~= s);
    } else {
        assert(!spec_html_special(s[0]));
        lemma_escape_plain_identity(s.drop_first());
        assert(spec_escape(s) =~= seq![s[0]] + s.drop_first());
        assert(seq![s[0]] + s.drop_first() =~= s);
    }
}

/// Text-only escaping of one character: `&`, `<` and `>` become entities.
pub open spec fn spec_escape_text_char(c: char) -> Seq<char> {
    if c == '&' {
        "&amp;"@
    } else if c == '<' {
        "&lt;"@
    } else if c == '>' {
        "&gt;"@
    } else {
        seq![c]
    }
}

/// Text-only escaping of a character sequence.
pub open spec fn spec_escape_text(s: Seq<char>) -> Seq<char>
    decreases s.len(),
{
    if s.len() == 0 {
        Seq::empty()
    } else {
        spec_escape_text_char(s[0]) + spec_escape_text(s.drop_first())
    }
}

/// Appends the text-only escaping of `s` to `out`.
pub(crate) fn escape_text_into(s: &str, out: &mut String)
    ensures
        final(out)@ == old(out)@ + spec_escape_text(s@),
{
    let n = s.unicode_len();
    let mut i: usize = 0;
    while i < n
        invariant
            i <= n,
            n == s@.len(),
            out@ == old(out)@ + spec_escape_text(s@.subrange(0, i as int)),
        decreases n - i,
    {
        let c = s.get_char(i);
        let ghost pre = s@.subrange(0, i as int);
        if c == '&' {
            out.append("&amp;");
        } else if c == '<' {
            out.append("&lt;");
        } else if c == '>' {
            out.append("&gt;");
        } else {
            push_char(out, c);
            assert(out@ =~= old(out)@ + spec_escape_text(pre) + spec_escape_text_char(c));
        }
        proof {
            assert(s@.subrange(0, i as int + 1) =~= pre.push(c));
            lemma_escape_text_push(pre, c);
            assert(out@ =~= old(out)@ + spec_escape_text(pre.push(c)));
        }
        i = i + 1;
    }
    proof {
        assert(s@.subrange(0, n as int) =~= s@);
    }
}

proof fn lemma_escape_text_push(s: Seq<char>, c: char)
    ensures
        spec_escape_text(s.push(c)) == spec_escape_text(s) + spec_escape_text_char(c),
    decreases s.len(),
{
    if s.len() == 0 {
        assert(s.push(c)[0] == c);
        assert(s.push(c).drop_first() =~= Seq::<char>::empty());
        assert(spec_escape_text(Seq::<char>::empty()) =~= Seq::<char>::empty());
        assert(spec_escape_text(s.push(c)) =~= spec_escape_text_char(c));
        assert(spec_escape_text(s) + spec_escape_text_char(c) =~= spec_escape_text_char(c));
    } else {
        assert(s.push(c).drop_first() =~= s.drop_first().push(c));
        lemma_escape_text_push(s.drop_first(), c);
        assert(spec_escape_text(s.push(c)) =~= spec_escape_text(s) + spec_escape_text_char(c));
    }
}

} // verus!
