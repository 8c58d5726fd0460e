//! Slug generation for heading anchors.
//!
//! Two policies live here. `slugify` preserves Unicode (CJK text is kept
//! verbatim, with whitespace between CJK characters removed), falls back to
//! `section` for empty results, and guarantees uniqueness against a caller
//! supplied list of already used slugs. `slugify_ascii` keeps ASCII
//! alphanumerics only, with the same fallback and uniqueness rules.
//! `heading_slug` is the pipeline's inline policy: Unicode-preserving, no
//! fallback and no uniqueness tracking; an empty result means "no id".

use vstd::prelude::*;

use crate::chars::ascii_lower_char;
use crate::chars::char_is_alphanumeric;
use crate::chars::char_is_whitespace;
use crate::chars::char_lowercase;
use crate::chars::chars_to_string;
use crate::chars::is_ascii_alphanumeric_char;
use crate::chars::is_ascii_whitespace_char;
use crate::chars::is_cjk;
use crate::chars::push_decimal;
use crate::chars::spec_ascii_alphanumeric;
use crate::chars::spec_ascii_lower;
use crate::chars::spec_ascii_whitespace;
use crate::chars::spec_decimal;
use crate::chars::spec_is_cjk;
use crate::chars::unicode_alphanumeric;
use crate::chars::unicode_lowercase;
use crate::chars::unicode_whitespace;

verus! {

/// The running state of Unicode slug construction.
pub ghost struct SlugState {
    pub acc: Seq<char>,
    pub last_hyphen: bool,
    pub prev_cjk: bool,
}

/// One step of Unicode slug construction.
pub open spec fn slugify_step(st: SlugState, c: char) -> SlugState {
    if spec_is_cjk(c) {
        let acc = if st.prev_cjk && st.last_hyphen {
            st.acc.drop_last()
        } else {
            st.acc
        };
        SlugState { acc: acc.push(c), last_hyphen: false, prev_cjk: true }
    } else if spec_ascii_alphanumeric(c) {
        SlugState { acc: st.acc.push(spec_ascii_lower(c)), last_hyphen: false, prev_cjk: false }
    } else if unicode_alphanumeric(c) {
        SlugState { acc: st.acc + unicode_lowercase(c), last_hyphen: false, prev_cjk: false }
    } else if unicode_whitespace(c) || c == '-' || c == '_' || c == '.' || c == '/' {
        if st.acc.len() > 0 && !st.last_hyphen {
            SlugState { acc: st.acc.push('-'), last_hyphen: true, prev_cjk: st.prev_cjk }
        } else {
            st
        }
    } else {
        st
    }
}

/// Folds Unicode slug construction over a character sequence.
pub open spec fn slugify_fold(st: SlugState, s: Seq<char>) -> SlugState
    decreases s.len(),
{
    if s.len() == 0 {
        st
    } else {
        slugify_fold(slugify_step(st, s[0]), s.drop_first())
    }
}

proof fn lemma_slugify_fold_snoc(st: SlugState, s: Seq<char>, c: char)
    ensures
        slugify_fold(st, s.push(c)) == slugify_step(slugify_fold(st, s), c),
    decreases s.len(),
{
    if s.len() == 0 {
        assert(s.push(c)[0] == c);
        assert(s.push(c).drop_first() =~= Seq::<char>::empty());
        assert(slugify_fold(slugify_step(st, c), Seq::<char>::empty()) == slugify_step(st, c));
    } else {
        assert(s.push(c)[0] == s[0]);
        assert(s.push(c).drop_first() =~= s.drop_first().push(c));
        lemma_slugify_fold_snoc(slugify_step(st, s[0]), s.drop_first(), c);
    }
}

/// Drops one trailing hyphen, if any.
pub open spec fn spec_trim_one_hyphen(s: Seq<char>) -> Seq<char> {
    if s.len() > 0 && s.last() == '-' {
        s.drop_last()
    } else {
        s
    }
}

/// The base Unicode slug of a text, before uniqueness handling: the fold,
/// one trailing hyphen trimmed, `section` when empty.
pub open spec fn spec_slug_base(text: Seq<char>) -> Seq<char> {
    let st = slugify_fold(
        SlugState { acc: Seq::empty(), last_hyphen: false, prev_cjk: false },
        text,
    );
    let trimmed = spec_trim_one_hyphen(st.acc);
    if trimmed.len() == 0 {
        "section"@
    } else {
        trimmed
    }
}

/// The running state of ASCII slug construction.
pub ghost struct AsciiSlugState {
    pub acc: Seq<char>,
    pub last_hyphen: bool,
}

/// One step of ASCII slug construction.
pub open spec fn ascii_slug_step(st: AsciiSlugState, c: char) -> AsciiSlugState {
    if spec_ascii_alphanumeric(c) {
        AsciiSlugState { acc: st.acc.push(spec_ascii_lower(c)), last_hyphen: false }
    } else if spec_ascii_whitespace(c) || c == '-' || c == '_' || c == '.' || c == '/' {
        if st.acc.len() > 0 && !st.last_hyphen {
            AsciiSlugState { acc: st.acc.push('-'), last_hyphen: true }
        } else {
            st
        }
    } else {
        st
    }
}

/// Folds ASCII slug construction over a character sequence.
pub open spec fn ascii_slug_fold(st: AsciiSlugState, s: Seq<char>) -> AsciiSlugState
    decreases s.len(),
{
    if s.len() == 0 {
        st
    } else {
        ascii_slug_fold(ascii_slug_step(st, s[0]), s.drop_first())
    }
}

proof fn lemma_ascii_slug_fold_snoc(st: AsciiSlugState, s: Seq<char>, c: char)
    ensures
        ascii_slug_fold(st, s.push(c)) == ascii_slug_step(ascii_slug_fold(st, s), c),
    decreases s.len(),
{
    if s.len() == 0 {
        assert(s.push(c)[0] == c);
        assert(s.push(c).drop_first() =~= Seq::<char>::empty());
        assert(ascii_slug_fold(ascii_slug_step(st, c), Seq::<char>::empty()) == ascii_slug_step(
            st,
            c,
        ));
    } else {
        assert(s.push(c)[0] == s[0]);
        assert(s.push(c).drop_first() =~= s.drop_first().push(c));
        lemma_ascii_slug_fold_snoc(ascii_slug_step(st, s[0]), s.drop_first(), c);
    }
}

/// The base ASCII slug of a text, before uniqueness handling.
pub open spec fn spec_ascii_slug_base(text: Seq<char>) -> Seq<char> {
    let st = ascii_slug_fold(AsciiSlugState { acc: Seq::empty(), last_hyphen: false }, text);
    let trimmed = spec_trim_one_hyphen(st.acc);
    if trimmed.len() == 0 {
        "section"@
    } else {
        trimmed
    }
}

/// The `n`-th uniqueness candidate for a base slug: the base itself for zero,
/// `base-n` for later tries.
pub open spec fn spec_candidate(base: Seq<char>, n: nat) -> Seq<char> {
    if n == 0 {
        base
    } else {
        base + seq!['-'] + spec_decimal(n)
    }
}

/// The view of a list of used slugs as a sequence of character sequences.
pub open spec fn strings_view(v: Seq<String>) -> Seq<Seq<char>> {
    Seq::new(v.len(), |i: int| v[i]@)
}

/// Whether `r` is the first free uniqueness candidate for `base` against the
/// used list: some candidate index is free while all earlier ones are taken.
pub open spec fn is_first_free_candidate(used: Seq<Seq<char>>, base: Seq<char>, r: Seq<char>) -> bool {
    exists|n: nat|
        r == spec_candidate(base, n) && !used.contains(spec_candidate(base, n)) && (forall|m: nat|
            m < n ==> used.contains(#[trigger] spec_candidate(base, m)))
}

fn vec_contains_string(v: &Vec<String>, s: &String) -> (r: bool)
    ensures
        r == strings_view(v@).contains(s@),
{
    let mut i: usize = 0;
    while i < v.len()
        invariant
            i <= v@.len(),
            forall|j: int| 0 <= j < i ==> strings_view(v@)[j] != s@,
        decreases v@.len() - i,
    {
        if s.eq(&v[i]) {
            assert(strings_view(v@)[i as int] == s@);
            return true;
        }
        i = i + 1;
    }
    assert forall|j: int| 0 <= j < strings_view(v@).len() implies strings_view(v@)[j] != s@ by {}
    false
}

proof fn lemma_decimal_len(n: nat)
    ensures
        spec_decimal(n).len() >= 1,
        n >= 10 ==> spec_decimal(n).len() >= 2,
    decreases n,
{
    if n >= 10 {
        lemma_decimal_len(n / 10);
    }
}

proof fn lemma_digit_char_injective(a: nat, b: nat)
    requires
        a < 10,
        b < 10,
        crate::chars::spec_digit_char(a) == crate::chars::spec_digit_char(b),
    ensures
        a == b,
{
}

proof fn lemma_decimal_injective(a: nat, b: nat)
    requires
        spec_decimal(a) == spec_decimal(b),
    ensures
        a == b,
    decreases a,
{
    lemma_decimal_len(a);
    lemma_decimal_len(b);
    if a < 10 && b < 10 {
        assert(spec_decimal(a) == seq![crate::chars::spec_digit_char(a % 10)]);
        assert(spec_decimal(b) == seq![crate::chars::spec_digit_char(b % 10)]);
        assert(seq![crate::chars::spec_digit_char(a % 10)][0] == crate::chars::spec_digit_char(
            a % 10,
        ));
        assert(seq![crate::chars::spec_digit_char(b % 10)][0] == crate::chars::spec_digit_char(
            b % 10,
        ));
        assert(crate::chars::spec_digit_char(a % 10) == crate::chars::spec_digit_char(b % 10));
        lemma_digit_char_injective(a % 10, b % 10);
    } else if a < 10 {
        assert(spec_decimal(a).len() == 1);
        assert(false);
    } else if b < 10 {
        assert(spec_decimal(b).len() == 1);
        assert(false);
    } else {
        let da = spec_decimal(a);
        let db = spec_decimal(b);
        assert(da.last() == db.last());
        lemma_digit_char_injective(a % 10, b % 10);
        assert(da.drop_last() =~= spec_decimal(a / 10));
        assert(db.drop_last() =~= spec_decimal(b / 10));
        lemma_decimal_injective(a / 10, b / 10);
        assert(a == 10 * (a / 10) + a % 10);
        assert(b == 10 * (b / 10) + b % 10);
    }
}

proof fn lemma_candidate_injective(base: Seq<char>, a: nat, b: nat)
    requires
        spec_candidate(base, a) == spec_candidate(base, b),
    ensures
        a == b,
{
    if a == 0 && b == 0 {
    } else if a == 0 {
        lemma_decimal_len(b);
        assert(spec_candidate(base, b).len() >= base.len() + 2);
    } else if b == 0 {
        lemma_decimal_len(a);
        assert(spec_candidate(base, a).len() >= base.len() + 2);
    } else {
        let ca = spec_candidate(base, a);
        let cb = spec_candidate(base, b);
        assert(spec_decimal(a) =~= ca.subrange(base.len() as int + 1, ca.len() as int));
        assert(spec_decimal(b) =~= cb.subrange(base.len() as int + 1, cb.len() as int));
        lemma_decimal_injective(a, b);
    }
}

/// With all candidates below `n` taken, `n` cannot exceed the number of used
/// slugs: the candidates are pairwise distinct and all occur in the list.
proof fn lemma_candidate_bound(used: Seq<Seq<char>>, base: Seq<char>, n: nat)
    requires
        forall|m: nat| m < n ==> used.contains(#[trigger] spec_candidate(base, m)),
    ensures
        n <= used.len(),
{
    let cands = Seq::new(n, |i: int| spec_candidate(base, i as nat));
    assert forall|i: int, j: int| 0 <= i < n && 0 <= j < n && i != j implies cands[i] != cands[j] by {
        if cands[i] == cands[j] {
            lemma_candidate_injective(base, i as nat, j as nat);
        }
    }
    cands.unique_seq_to_set();
    assert(cands.to_set().len() == n);
    assert forall|x: Seq<char>| cands.to_set().contains(x) implies used.to_set().contains(x) by {
        let i = choose|i: int| 0 <= i < cands.len() && cands[i] == x;
        assert(used.contains(x));
        assert(used.to_set().contains(x));
    }
    broadcast use vstd::seq_lib::group_seq_properties;

    assert(cands.to_set() <= used.to_set());
    used.lemma_cardinality_of_set();
    vstd::set_lib::lemma_len_subset(cands.to_set(), used.to_set());
}

fn find_unique(base: Vec<char>, used_slugs: &mut Vec<String>) -> (r: String)
    ensures
        !strings_view(old(used_slugs)@).contains(r@),
        strings_view(final(used_slugs)@) == strings_view(old(used_slugs)@).push(r@),
        is_first_free_candidate(strings_view(old(used_slugs)@), base@, r@),
{
    let ghost used_view = strings_view(used_slugs@);
    let mut n: usize = 0;
    let mut cand: Vec<char> = Vec::new();
    let mut i: usize = 0;
    while i < base.len()
        invariant
            i <= base@.len(),
            cand@ == base@.subrange(0, i as int),
        decreases base@.len() - i,
    {
        cand.push(base[i]);
        assert(cand@ =~= base@.subrange(0, i as int + 1));
        i = i + 1;
    }
    assert(cand@ =~= base@);
    proof {
        lemma_candidate_bound(used_view, base@, n as nat);
    }
    loop
        invariant
            n == 0 ==> cand@ == spec_candidate(base@, 0),
            n > 0 ==> cand@ == spec_candidate(base@, n as nat),
            forall|m: nat| m < n ==> used_view.contains(#[trigger] spec_candidate(base@, m)),
            used_view == strings_view(used_slugs@),
            used_view == strings_view(old(used_slugs)@),
            n <= used_view.len(),
        decreases used_view.len() - n,
    {
        let cand_str = chars_to_string(&cand);
        if !vec_contains_string(used_slugs, &cand_str) {
            let result = chars_to_string(&cand);
            proof {
                if n > 0 {
                    lemma_decimal_len(n as nat);
                }
            }
            used_slugs.push(cand_str);
            assert(strings_view(used_slugs@) =~= used_view.push(result@));
            return result;
        }
        proof {
            lemma_candidate_bound(used_view, base@, n as nat + 1);
        }
        let total = used_slugs.len();
        assert(n < total);
        n = n + 1;
        cand.clear();
        let mut i: usize = 0;
        while i < base.len()
            invariant
                i <= base@.len(),
                cand@ == base@.subrange(0, i as int),
            decreases base@.len() - i,
        {
            cand.push(base[i]);
            assert(cand@ =~= base@.subrange(0, i as int + 1));
            i = i + 1;
        }
        assert(cand@ =~= base@);
        cand.push('-');
        push_decimal(n as u64, &mut cand);
        assert(cand@ =~= base@ + seq!['-'] + spec_decimal(n as nat));
    }
}

/// Appends the characters of `section` to an empty accumulator.
fn push_section(acc: &mut Vec<char>)
    requires
        old(acc)@.len() == 0,
    ensures
        final(acc)@ == "section"@,
{
    acc.push('s');
    acc.push('e');
    acc.push('c');
    acc.push('t');
    acc.push('i');
    acc.push('o');
    acc.push('n');
    proof {
        reveal_strlit("section");
        assert(acc@ =~= "section"@);
    }
}

/// Unicode-preserving slug generation with uniqueness against `used_slugs`.
///
/// CJK characters are kept verbatim and whitespace between two CJK
/// characters is removed; ASCII alphanumerics are lowercased; other Unicode
/// alphanumerics are case-folded; whitespace and `-`, `_`, `.`, `/` become a
/// single hyphen; everything else is dropped. One trailing hyphen is
/// trimmed, an empty result falls back to `section`, and a `-1`, `-2`, ...
/// suffix makes the result distinct from every slug already in `used_slugs`;
/// the result is then appended to `used_slugs`.
pub fn slugify(text: &str, used_slugs: &mut Vec<String>) -> (r: String)
    ensures
        !strings_view(old(used_slugs)@).contains(r@),
        strings_view(final(used_slugs)@) == strings_view(old(used_slugs)@).push(r@),
        is_first_free_candidate(strings_view(old(used_slugs)@), spec_slug_base(text@), r@),
{
    let ghost init = SlugState { acc: Seq::empty(), last_hyphen: false, prev_cjk: false };
    let mut acc: Vec<char> = Vec::new();
    let mut last_hyphen = false;
    let mut prev_cjk = false;
    let n = text.unicode_len();
    let mut i: usize = 0;
    while i < n
        invariant
            i <= n,
            n == text@.len(),
            slugify_fold(init, text@.subrange(0, i as int)) == (SlugState {
                acc: acc@,
                last_hyphen: last_hyphen,
                prev_cjk: prev_cjk,
            }),
            last_hyphen ==> acc@.len() > 0,
        decreases n - i,
    {
        let c = text.get_char(i);
        let ghost pre = text@.subrange(0, i as int);
        proof {
            assert(text@.subrange(0, i as int + 1) =~= pre.push(c));
            lemma_slugify_fold_snoc(init, pre, c);
        }
        if is_cjk(c) {
            if prev_cjk && last_hyphen {
                acc.pop();
            }
            acc.push(c);
            last_hyphen = false;
            prev_cjk = true;
            assert(acc@ =~= slugify_step(slugify_fold(init, pre), c).acc);
        } else if is_ascii_alphanumeric_char(c) {
            acc.push(ascii_lower_char(c));
            last_hyphen = false;
            prev_cjk = false;
            assert(acc@ =~= slugify_step(slugify_fold(init, pre), c).acc);
        } else if char_is_alphanumeric(c) {
            let lower = char_lowercase(c);
            let mut k: usize = 0;
            while k < lower.len()
                invariant
                    k <= lower@.len(),
                    acc@.len() >= 0,
                    acc@ == old_acc_plus(slugify_fold(init, pre).acc, lower@.subrange(0, k as int)),
                decreases lower@.len() - k,
            {
                acc.push(lower[k]);
                assert(lower@.subrange(0, k as int + 1) =~= lower@.subrange(0, k as int).push(
                    lower@[k as int],
                ));
                assert(acc@ =~= old_acc_plus(
                    slugify_fold(init, pre).acc,
                    lower@.subrange(0, k as int + 1),
                ));
                k = k + 1;
            }
            assert(lower@.subrange(0, lower@.len() as int) =~= lower@);
            last_hyphen = false;
            prev_cjk = false;
            assert(acc@ =~= slugify_step(slugify_fold(init, pre), c).acc);
        } else if char_is_whitespace(c) || c == '-' || c == '_' || c == '.' || c == '/' {
            if acc.len() > 0 && !last_hyphen {
                acc.push('-');
                last_hyphen = true;
            }
            assert(acc@ =~= slugify_step(slugify_fold(init, pre), c).acc);
        } else {
            assert(acc@ =~= slugify_step(slugify_fold(init, pre), c).acc);
        }
        i = i + 1;
    }
    proof {
        assert(text@.subrange(0, n as int) =~= text@);
    }
    if acc.len() > 0 && acc[acc.len() - 1] == '-' {
        acc.pop();
    }
    if acc.len() == 0 {
        push_section(&mut acc);
    }
    assert(acc@ == spec_slug_base(text@));
    find_unique(acc, used_slugs)
}

/// The concatenation of a slug accumulator and a partial lowercase mapping.
pub open spec fn old_acc_plus(acc: Seq<char>, part: Seq<char>) -> Seq<char> {
    acc + part
}

/// ASCII-only slug generation with uniqueness against `used_slugs`.
///
/// ASCII alphanumerics are lowercased and kept; ASCII whitespace and `-`,
/// `_`, `.`, `/` become a single hyphen; every other character, Unicode
/// included, is dropped. One trailing hyphen is trimmed, an empty result
/// falls back to `section`, and a numeric suffix makes the result distinct
/// from every slug already in `used_slugs`; the result is then appended to
/// `used_slugs`.
pub fn slugify_ascii(text: &str, used_slugs: &mut Vec<String>) -> (r: String)
    ensures
        !strings_view(old(used_slugs)@).contains(r@),
        strings_view(final(used_slugs)@) == strings_view(old(used_slugs)@).push(r@),
        is_first_free_candidate(strings_view(old(used_slugs)@), spec_ascii_slug_base(text@), r@),
{
    let ghost init = AsciiSlugState { acc: Seq::empty(), last_hyphen: false };
    let mut acc: Vec<char> = Vec::new();
    let mut last_hyphen = false;
    let n = text.unicode_len();
    let mut i: usize = 0;
    while i < n
        invariant
            i <= n,
            n == text@.len(),
            ascii_slug_fold(init, text@.subrange(0, i as int)) == (AsciiSlugState {
                acc: acc@,
                last_hyphen: last_hyphen,
            }),
        decreases n - i,
    {
        let c = text.get_char(i);
        let ghost pre = text@.subrange(0, i as int);
        proof {
            assert(text@.subrange(0, i as int + 1) =~= pre.push(c));
            lemma_ascii_slug_fold_snoc(init, pre, c);
        }
        if is_ascii_alphanumeric_char(c) {
            acc.push(ascii_lower_char(c));
            last_hyphen = false;
            assert(acc@ =~= ascii_slug_step(ascii_slug_fold(init, pre), c).acc);
        } else if is_ascii_whitespace_char(c) || c == '-' || c == '_' || c == '.' || c == '/' {
            if acc.len() > 0 && !last_hyphen {
                acc.push('-');
                last_hyphen = true;
            }
            assert(acc@ =~= ascii_slug_step(ascii_slug_fold(init, pre), c).acc);
        } else {
            assert(acc@ =~= ascii_slug_step(ascii_slug_fold(init, pre), c).acc);
        }
        i = i + 1;
    }
    proof {
        assert(text@.subrange(0, n as int) =~= text@);
    }
    if acc.len() > 0 && acc[acc.len() - 1] == '-' {
        acc.pop();
    }
    if acc.len() == 0 {
        push_section(&mut acc);
    }
    assert(acc@ == spec_ascii_slug_base(text@));
    find_unique(acc, used_slugs)
}

/// The running state of pipeline heading-slug construction.
pub ghost struct HeadingSlugState {
    pub acc: Seq<char>,
    pub last_dash: bool,
}

/// One step of pipeline heading-slug construction.
pub open spec fn heading_slug_step(st: HeadingSlugState, c: char) -> HeadingSlugState {
    if unicode_alphanumeric(c) {
        HeadingSlugState { acc: st.acc + unicode_lowercase(c), last_dash: false }
    } else if (unicode_whitespace(c) || c == '-' || c == '_' || c == ':' || c == '.') && st.acc.len()
        > 0 && !st.last_dash {
        HeadingSlugState { acc: st.acc.push('-'), last_dash: true }
    } else {
        st
    }
}

/// Folds pipeline heading-slug construction over a character sequence.
pub open spec fn heading_slug_fold(st: HeadingSlugState, s: Seq<char>) -> HeadingSlugState
    decreases s.len(),
{
    if s.len() == 0 {
        st
    } else {
        heading_slug_fold(heading_slug_step(st, s[0]), s.drop_first())
    }
}

proof fn lemma_heading_slug_fold_snoc(st: HeadingSlugState, s: Seq<char>, c: char)
    ensures
        heading_slug_fold(st, s.push(c)) == heading_slug_step(heading_slug_fold(st, s), c),
    decreases s.len(),
{
    if s.len() == 0 {
        assert(s.push(c)[0] == c);
        assert(s.push(c).drop_first() =~= Seq::<char>::empty());
        assert(heading_slug_fold(heading_slug_step(st, c), Seq::<char>::empty())
            == heading_slug_step(st, c));
    } else {
        assert(s.push(c)[0] == s[0]);
        assert(s.push(c).drop_first() =~= s.drop_first().push(c));
        lemma_heading_slug_fold_snoc(heading_slug_step(st, s[0]), s.drop_first(), c);
    }
}

/// Trims every trailing hyphen.
pub open spec fn spec_trim_hyphens(s: Seq<char>) -> Seq<char>
    decreases s.len(),
{
    if s.len() > 0 && s.last() == '-' {
        spec_trim_hyphens(s.drop_last())
    } else {
        s
    }
}

/// The pipeline heading slug of a heading's visible text: `None` when the
/// result is empty, in which case the heading carries no id.
pub open spec fn spec_heading_slug(text: Seq<char>) -> Option<Seq<char>> {
    let st = heading_slug_fold(HeadingSlugState { acc: Seq::empty(), last_dash: false }, text);
    let trimmed = spec_trim_hyphens(st.acc);
    if trimmed.len() == 0 {
        None
    } else {
        Some(trimmed)
    }
}

/// Computes the pipeline heading slug of a heading's visible text: Unicode
/// alphanumerics case-folded, separators collapsed to single hyphens, other
/// punctuation dropped, trailing hyphens trimmed; an empty result yields
/// `None` rather than a fallback id.
pub fn heading_slug_of_text(text: &str) -> (r: Option<String>)
    ensures
        match r {
            Some(s) => spec_heading_slug(text@) == Some(s@),
            None => spec_heading_slug(text@) is None,
        },
{
    let ghost init = HeadingSlugState { acc: Seq::empty(), last_dash: false };
    let mut acc: Vec<char> = Vec::new();
    let mut last_dash = false;
    let n = text.unicode_len();
    let mut i: usize = 0;
    while i < n
        invariant
            i <= n,
            n == text@.len(),
            heading_slug_fold(init, text@.subrange(0, i as int)) == (HeadingSlugState {
                acc: acc@,
                last_dash: last_dash,
            }),
        decreases n - i,
    {
        let c = text.get_char(i);
        let ghost pre = text@.subrange(0, i as int);
        proof {
            assert(text@.subrange(0, i as int + 1) =~= pre.push(c));
            lemma_heading_slug_fold_snoc(init, pre, c);
        }
        if char_is_alphanumeric(c) {
            let lower = char_lowercase(c);
            let mut k: usize = 0;
            while k < lower.len()
                invariant
                    k <= lower@.len(),
                    acc@ == old_acc_plus(
                        heading_slug_fold(init, pre).acc,
                        lower@.subrange(0, k as int),
                    ),
                decreases lower@.len() - k,
            {
                acc.push(lower[k]);
                assert(lower@.subrange(0, k as int + 1) =~= lower@.subrange(0, k as int).push(
                    lower@[k as int],
                ));
                assert(acc@ =~= old_acc_plus(
                    heading_slug_fold(init, pre).acc,
                    lower@.subrange(0, k as int + 1),
                ));
                k = k + 1;
            }
            assert(lower@.subrange(0, lower@.len() as int) =~= lower@);
            last_dash = false;
            assert(acc@ =~= heading_slug_step(heading_slug_fold(init, pre), c).acc);
        } else if char_is_whitespace(c) || c == '-' || c == '_' || c == ':' || c == '.' {
            if acc.len() > 0 && !last_dash {
                acc.push('-');
                last_dash = true;
            }
            assert(acc@ =~= heading_slug_step(heading_slug_fold(init, pre), c).acc);
        } else {
            assert(acc@ =~= heading_slug_step(heading_slug_fold(init, pre), c).acc);
        }
        i = i + 1;
    }
    proof {
        assert(text@.subrange(0, n as int) =~= text@);
    }
    while acc.len() > 0 && acc[acc.len() - 1] == '-'
        invariant
            spec_trim_hyphens(acc@) == spec_trim_hyphens(
                heading_slug_fold(init, text@).acc,
            ),
        decreases acc@.len(),
    {
        acc.pop();
    }
    assert(acc@ == spec_trim_hyphens(acc@));
    if acc.len() == 0 {
        None
    } else {
        Some(chars_to_string(&acc))
    }
}


/// A step on a text with no alphanumeric character never grows the slug.
proof fn lemma_heading_fold_stays_empty(st: HeadingSlugState, s: Seq<char>)
    requires
        st.acc.len() == 0,
        forall|i: int| 0 <= i < s.len() ==> !unicode_alphanumeric(#[trigger] s[i]),
    ensures
        heading_slug_fold(st, s) == st,
    decreases s.len(),
{
    if s.len() > 0 {
        assert(!unicode_alphanumeric(s[0]));
        assert(heading_slug_step(st, s[0]) == st);
        assert(forall|i: int|
            0 <= i < s.drop_first().len() ==> !unicode_alphanumeric(
                #[trigger] s.drop_first()[i],
            ));
        lemma_heading_fold_stays_empty(st, s.drop_first());
    }
}

/// A heading whose visible text holds no alphanumeric character gets no id:
/// separators and punctuation alone never start a slug, so the result is
/// `None`. Read the other way: a heading that carries an id has an
/// alphanumeric character in its visible text.
pub proof fn lemma_heading_slug_none_without_alphanumeric(text: Seq<char>)
    requires
        forall|i: int| 0 <= i < text.len() ==> !unicode_alphanumeric(#[trigger] text[i]),
    ensures
        spec_heading_slug(text) is None,
{
    let init = HeadingSlugState { acc: Seq::empty(), last_dash: false };
    lemma_heading_fold_stays_empty(init, text);
    assert(spec_trim_hyphens(heading_slug_fold(init, text).acc).len() == 0);
}

} // verus!
