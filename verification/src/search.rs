//! Case-insensitive search: finding a query in text, and mapping positions in
//! the lower-cased text back to the original text to highlight matches.
use vstd::prelude::*;
use crate::line::{line_text, span, spans_view, push_span, SpanView, StyledLine, StyledSpan};
use crate::style::Style;
use crate::text::{
    ascii_lower, is_ascii_text, char_len_utf8, char_utf8_len, chars_of, lemma_utf8_len_take_mono, lemma_utf8_len_take_step,
    string_of, utf8_len,
};

verus! {

/// `s` in lower case as `str::to_lowercase` gives it (Unicode case mapping).
pub uninterp spec fn lowercase(s: Seq<char>) -> Seq<char>;

/// The characters that `char::to_lowercase` gives for `c` (one or more).
pub uninterp spec fn char_lowercase(c: char) -> Seq<char>;

/// The characters of `s` each lower-cased by `char::to_lowercase`, one after
/// the other.
pub open spec fn lower_each(s: Seq<char>) -> Seq<char>
    decreases s.len(),
{
    if s.len() == 0 {
        Seq::empty()
    } else {
        lower_each(s.drop_last()) + char_lowercase(s.last())
    }
}

/// `str::to_lowercase`: `s` in lower case, which the Unicode tables of the
/// standard library determine from `s` alone. Each character is lower-cased
/// as `char::to_lowercase` does it, the results one after the other; the one
/// exception, which std documents, is the capital sigma `Σ`, which becomes a
/// final `ς` at the end of a word. Within ASCII, Unicode lower-cases exactly
/// the capital letters `A` to `Z`, to `a` to `z`, one for one.
#[verifier::external_body]
pub(crate) fn to_lowercase(s: &str) -> (r: String)
    ensures
        r@ == lowercase(s@),
        is_ascii_text(s@) ==> r@ == s@.map_values(|c: char| ascii_lower(c)),
        !s@.contains('\u{3A3}') ==> r@ == lower_each(s@),
{
    s.to_lowercase()
}

/// `char::to_lowercase`: the characters of `c` in lower case, collected; an
/// ASCII character lower-cases to one character (see `to_lowercase`).
#[verifier::external_body]
fn char_to_lowercase(c: char) -> (r: Vec<char>)
    ensures
        r@ == char_lowercase(c),
        (c as u32) < 128 ==> r@ == seq![ascii_lower(c)],
{
    c.to_lowercase().collect()
}

// ---------------------------------------------------------------------------
// Finding a substring

/// `needle` occurs in `hay` at character index `i`.
pub open spec fn occurs_at(hay: Seq<char>, needle: Seq<char>, i: int) -> bool {
    0 <= i && i + needle.len() <= hay.len() && hay.subrange(i, i + needle.len()) == needle
}

/// The first index at or after `from` where `needle` occurs in `hay`
/// (`str::find` on `hay[from..]`, counted in characters).
pub open spec fn find_from(hay: Seq<char>, needle: Seq<char>, from: nat) -> Option<nat>
    decreases hay.len() + 1 - from,
{
    if from + needle.len() > hay.len() {
        None
    } else if occurs_at(hay, needle, from as int) {
        Some(from)
    } else {
        find_from(hay, needle, from + 1)
    }
}

/// `needle` occurs somewhere in `hay` (`str::contains`).
pub open spec fn contains(hay: Seq<char>, needle: Seq<char>) -> bool {
    exists|i: int| occurs_at(hay, needle, i)
}

/// What `find_from` finds: the first occurrence, and none before it.
pub proof fn lemma_find_from(hay: Seq<char>, needle: Seq<char>, from: nat)
    ensures
        match find_from(hay, needle, from) {
            Some(i) => from <= i && occurs_at(hay, needle, i as int) && forall|j: int|
                from <= j < i ==> !occurs_at(hay, needle, j),
            None => forall|j: int| from <= j ==> !occurs_at(hay, needle, j),
        },
    decreases hay.len() + 1 - from,
{
    if from + needle.len() > hay.len() {
    } else if occurs_at(hay, needle, from as int) {
    } else {
        lemma_find_from(hay, needle, from + 1);
    }
}

fn occurs_at_exec(hay: &Vec<char>, needle: &Vec<char>, i: usize) -> (b: bool)
    requires
        i + needle.len() <= hay.len(),
    ensures
        b == occurs_at(hay@, needle@, i as int),
{
    let mut k: usize = 0;
    while k < needle.len()
        invariant
            k <= needle.len(),
            i + needle.len() <= hay.len(),
            forall|j: int| 0 <= j < k ==> hay@[i + j] == needle@[j],
        decreases needle.len() - k,
    {
        if hay[i + k] != needle[k] {
            assert(hay@.subrange(i as int, i + needle.len())[k as int] != needle@[k as int]);
            return false;
        }
        k = k + 1;
    }
    assert(hay@.subrange(i as int, i + needle.len()) =~= needle@);
    true
}

/// The first index at or after `from` where `needle` occurs in `hay`.
pub fn find_chars(hay: &Vec<char>, needle: &Vec<char>, from: usize) -> (r: Option<usize>)
    requires
        from <= hay.len(),
    ensures
        r == (match find_from(hay@, needle@, from as nat) {
            Some(i) => Some(i as usize),
            None => None::<usize>,
        }),
{
    let mut i = from;
    while needle.len() <= hay.len() - i
        invariant
            from <= i <= hay.len(),
            find_from(hay@, needle@, from as nat) == find_from(hay@, needle@, i as nat),
        decreases hay.len() - i,
    {
        if occurs_at_exec(hay, needle, i) {
            return Some(i);
        }
        assert(needle@.len() > 0) by {
            if needle@.len() == 0 {
                assert(hay@.subrange(i as int, i as int) =~= needle@);
            }
        }
        i = i + 1;
    }
    None
}

/// Whether `needle` occurs in `hay`.
pub fn contains_chars(hay: &Vec<char>, needle: &Vec<char>) -> (b: bool)
    ensures
        b == contains(hay@, needle@),
{
    let r = find_chars(hay, needle, 0);
    proof {
        lemma_find_from(hay@, needle@, 0);
    }
    r.is_some()
}

// ---------------------------------------------------------------------------
// From lower-case positions back to the original text

/// The walk of `map_lower_offset_to_orig`, in characters: from original
/// character `oi` and lower-case character `li`, as long as the lower-case
/// text before `li` is shorter than `target` bytes, each original character
/// consumes as many lower-case characters as it lower-cases to. The result is
/// the original character reached, or `None` where a text runs out.
pub open spec fn walk(orig: Seq<char>, lower: Seq<char>, oi: nat, li: nat, target: nat) -> Option<
    nat,
>
    decreases orig.len() + 1 - oi,
{
    if li <= lower.len() && utf8_len(lower.take(li as int)) >= target {
        Some(oi)
    } else if oi >= orig.len() || li > lower.len() {
        None
    } else {
        let n = char_lowercase(orig[oi as int]).len();
        if li + n > lower.len() {
            None
        } else {
            walk(orig, lower, oi + 1, li + n, target)
        }
    }
}

/// Byte offset `pos` falls between two characters of `s` (or at an end).
pub open spec fn is_boundary(s: Seq<char>, pos: nat) -> bool {
    exists|k: int| 0 <= k <= s.len() && utf8_len(s.take(k)) == pos
}

/// The character index at byte offset `pos` of `s`.
pub open spec fn char_index(s: Seq<char>, pos: nat) -> nat {
    choose|k: nat| k <= s.len() && utf8_len(s.take(k as int)) == pos
}

/// The byte offset in `orig` that byte offset `target` of its lower-case form
/// `lower` maps to, walking from the aligned offsets `orig_pos` and
/// `lower_pos`; `None` where an offset is not between characters or a text
/// runs out.
pub open spec fn lower_to_orig(
    orig: Seq<char>,
    lower: Seq<char>,
    orig_pos: nat,
    lower_pos: nat,
    target: nat,
) -> Option<nat> {
    if is_boundary(orig, orig_pos) && is_boundary(lower, lower_pos) {
        match walk(orig, lower, char_index(orig, orig_pos), char_index(lower, lower_pos), target) {
            Some(k) => Some(utf8_len(orig.take(k as int))),
            None => None,
        }
    } else {
        None
    }
}

proof fn lemma_utf8_len_bound(s: Seq<char>)
    ensures
        utf8_len(s) <= 4 * s.len(),
    decreases s.len(),
{
    if s.len() > 0 {
        lemma_utf8_len_bound(s.drop_last());
    }
}

proof fn lemma_char_index_unique(s: Seq<char>, pos: nat, k: int)
    requires
        0 <= k <= s.len(),
        utf8_len(s.take(k)) == pos,
    ensures
        is_boundary(s, pos),
        char_index(s, pos) == k,
{
    let c = char_index(s, pos);
    assert(c <= s.len() && utf8_len(s.take(c as int)) == pos);
    if c < k {
        lemma_utf8_len_take_mono(s, c as int, k);
    } else if c > k {
        lemma_utf8_len_take_mono(s, k, c as int);
    }
}

/// The character index of byte offset `pos` of `cs`, if it is between two
/// characters.
fn char_index_at_byte(cs: &Vec<char>, pos: usize) -> (r: Option<usize>)
    ensures
        r is Some <==> is_boundary(cs@, pos as nat),
        r is Some ==> r->0 == char_index(cs@, pos as nat) && utf8_len(cs@.take(r->0 as int))
            == pos,
{
    let mut k: usize = 0;
    let mut acc: u128 = 0;
    assert(cs@.take(0) =~= Seq::<char>::empty());
    while k < cs.len()
        invariant
            k <= cs.len(),
            acc == utf8_len(cs@.take(k as int)),
            acc <= 4 * k,
            forall|j: int| 0 <= j < k ==> utf8_len(cs@.take(j)) < pos,
        decreases cs.len() - k,
    {
        if acc == pos as u128 {
            proof {
                lemma_char_index_unique(cs@, pos as nat, k as int);
            }
            return Some(k);
        }
        if acc > pos as u128 {
            proof {
                assert forall|j: int| 0 <= j <= cs.len() implies utf8_len(cs@.take(j)) != pos by {
                    if j > k {
                        lemma_utf8_len_take_mono(cs@, k as int, j);
                    }
                }
            }
            return None;
        }
        proof {
            lemma_utf8_len_take_step(cs@, k as int);
        }
        acc = acc + char_len_utf8(cs[k]) as u128;
        k = k + 1;
    }
    if acc == pos as u128 {
        proof {
            lemma_char_index_unique(cs@, pos as nat, k as int);
        }
        Some(k)
    } else {
        None
    }
}

/// The walk of `walk`, from aligned character positions `oi` and `li`;
/// `lpos` is the byte length of `lower` before `li`.
fn walk_exec(orig: &Vec<char>, lower: &Vec<char>, oi: usize, li: usize, target: u128) -> (r: Option<
    usize,
>)
    requires
        li <= lower.len(),
    ensures
        r == (match walk(orig@, lower@, oi as nat, li as nat, target as nat) {
            Some(k) => Some(k as usize),
            None => None::<usize>,
        }),
        r is Some ==> r->0 <= orig.len() || r->0 == oi,
        r is Some ==> oi <= r->0,
{
    let ghost oi0 = oi;
    let ghost li0 = li;
    let mut o = oi;
    let mut l = li;
    proof {
        lemma_utf8_len_bound(lower@.take(l as int));
    }
    let mut lpos: u128 = lpos_of(lower, l);
    loop
        invariant
            oi0 == oi,
            li0 == li,
            l <= lower.len(),
            oi0 <= o,
            o == oi0 || o <= orig.len(),
            lpos == utf8_len(lower@.take(l as int)),
            walk(orig@, lower@, oi0 as nat, li0 as nat, target as nat) == walk(
                orig@,
                lower@,
                o as nat,
                l as nat,
                target as nat,
            ),
        decreases orig.len() + 1 - o,
    {
        if lpos >= target {
            assert(walk(orig@, lower@, o as nat, l as nat, target as nat) == Some(o as nat));
            assert(walk(orig@, lower@, oi0 as nat, li0 as nat, target as nat) == Some(o as nat));
            return Some(o);
        }
        if o >= orig.len() {
            assert(walk(orig@, lower@, o as nat, l as nat, target as nat) == None::<nat>);
            return None;
        }
        let n = char_to_lowercase(orig[o]).len();
        if n > lower.len() - l {
            assert(walk(orig@, lower@, o as nat, l as nat, target as nat) == None::<nat>);
            return None;
        }
        let mut k: usize = 0;
        while k < n
            invariant
                k <= n,
                l + n <= lower.len(),
                lpos == utf8_len(lower@.take(l + k)),
            decreases n - k,
        {
            proof {
                lemma_utf8_len_take_step(lower@, l + k);
                lemma_utf8_len_bound(lower@.take(l + k + 1));
            }
            lpos = lpos + char_len_utf8(lower[l + k]) as u128;
            k = k + 1;
        }
        l = l + n;
        o = o + 1;
    }
}

fn lpos_of(lower: &Vec<char>, li: usize) -> (p: u128)
    requires
        li <= lower.len(),
    ensures
        p == utf8_len(lower@.take(li as int)),
{
    let mut k: usize = 0;
    let mut p: u128 = 0;
    assert(lower@.take(0) =~= Seq::<char>::empty());
    while k < li
        invariant
            k <= li <= lower.len(),
            p == utf8_len(lower@.take(k as int)),
        decreases li - k,
    {
        proof {
            lemma_utf8_len_take_step(lower@, k as int);
            lemma_utf8_len_bound(lower@.take(k + 1));
        }
        p = p + char_len_utf8(lower[k]) as u128;
        k = k + 1;
    }
    p
}

/// `lower_to_orig` computed, as a `u128`.
fn lower_to_orig_exec(
    orig: &str,
    lower: &str,
    orig_pos: usize,
    lower_pos: usize,
    target_lower_pos: usize,
) -> (r: Option<u128>)
    ensures
        r matches Some(p) ==> lower_to_orig(
            orig@,
            lower@,
            orig_pos as nat,
            lower_pos as nat,
            target_lower_pos as nat,
        ) == Some(p as nat),
        r is None ==> lower_to_orig(
            orig@,
            lower@,
            orig_pos as nat,
            lower_pos as nat,
            target_lower_pos as nat,
        ) is None,
{
    let o = chars_of(orig);
    let l = chars_of(lower);
    let ko = char_index_at_byte(&o, orig_pos);
    let kl = char_index_at_byte(&l, lower_pos);
    match (ko, kl) {
        (Some(ko), Some(kl)) => {
            proof {
                lemma_walk_bounds(o@, l@, ko as nat, kl as nat, target_lower_pos as nat);
            }
            match walk_exec(&o, &l, ko, kl, target_lower_pos as u128) {
                Some(k) => Some(lpos_of(&o, k)),
                None => None,
            }
        },
        _ => None,
    }
}

/// Maps byte offset `target_lower_pos` of `lower`, the lower-case form of
/// `orig`, back to a byte offset of `orig`, walking forward from the aligned
/// offsets `orig_pos` and `lower_pos` (see `lower_to_orig`). A character
/// whose lower case has several characters moves the lower-case offset by
/// all of them at once.
pub fn map_lower_offset_to_orig(
    orig: &str,
    lower: &str,
    orig_pos: usize,
    lower_pos: usize,
    target_lower_pos: usize,
) -> (r: usize)
    requires
        lower_to_orig(orig@, lower@, orig_pos as nat, lower_pos as nat, target_lower_pos as nat) is Some,
        lower_to_orig(orig@, lower@, orig_pos as nat, lower_pos as nat, target_lower_pos as nat)->0
            <= usize::MAX,
    ensures
        r == lower_to_orig(orig@, lower@, orig_pos as nat, lower_pos as nat, target_lower_pos as nat)->0,
{
    match lower_to_orig_exec(orig, lower, orig_pos, lower_pos, target_lower_pos) {
        Some(p) => p as usize,
        None => 0,
    }
}

/// `map_lower_offset_to_orig` where the walk succeeds: the original offset,
/// or `None` where an offset is not between characters, a text runs out
/// before the target (as when `lower` is not the lower case of `orig`), or
/// the result does not fit in a `usize`.
pub fn map_lower_offset_checked(
    orig: &str,
    lower: &str,
    orig_pos: usize,
    lower_pos: usize,
    target_lower_pos: usize,
) -> (r: Option<usize>)
    ensures
        r == (match lower_to_orig(
            orig@,
            lower@,
            orig_pos as nat,
            lower_pos as nat,
            target_lower_pos as nat,
        ) {
            Some(p) => if p <= usize::MAX {
                Some(p as usize)
            } else {
                None
            },
            None => None,
        }),
{
    match lower_to_orig_exec(orig, lower, orig_pos, lower_pos, target_lower_pos) {
        Some(p) => {
            if p <= usize::MAX as u128 {
                Some(map_lower_offset_to_orig(orig, lower, orig_pos, lower_pos, target_lower_pos))
            } else {
                None
            }
        },
        None => None,
    }
}

// ---------------------------------------------------------------------------
// Highlighting

/// The spans that end a highlighted text: the rest of the text after the
/// last match, in the base style, if there is any.
pub open spec fn hl_rest(orig: Seq<char>, last_o: nat, out: Seq<SpanView>, base: Style) -> Seq<
    SpanView,
> {
    if last_o < orig.len() {
        out.push(span(orig.subrange(last_o as int, orig.len() as int), base))
    } else {
        out
    }
}

/// The spans of text `orig` (lower case `lower`) with every match of the
/// lower-case query `ql` highlighted, continuing the search at lower-case
/// character `start` with `last_l` and `last_o` the lower-case and original
/// positions after the last match and `out` the spans so far. A match is
/// found in the lower-case text and mapped back to the original text by
/// `walk`. `None` where the search would not end (an empty query) or a walk
/// runs out of text.
pub open spec fn hl_spans(
    orig: Seq<char>,
    lower: Seq<char>,
    ql: Seq<char>,
    base: Style,
    hl: Style,
    start: nat,
    last_l: nat,
    last_o: nat,
    out: Seq<SpanView>,
) -> Option<Seq<SpanView>>
    decreases lower.len() + 1 - start,
{
    if start >= lower.len() {
        Some(hl_rest(orig, last_o, out, base))
    } else if ql.len() == 0 {
        None
    } else {
        match find_from(lower, ql, start) {
            None => Some(hl_rest(orig, last_o, out, base)),
            Some(ms) => {
                proof {
                    lemma_find_from(lower, ql, start);
                }
                let me = ms + ql.len();
                match walk(orig, lower, last_o, last_l, utf8_len(lower.take(ms as int))) {
                    None => None,
                    Some(os) => match walk(orig, lower, os, ms, utf8_len(lower.take(me as int))) {
                        None => None,
                        Some(oe) => {
                            let out1 = if os > last_o {
                                out.push(span(orig.subrange(last_o as int, os as int), base))
                            } else {
                                out
                            };
                            hl_spans(
                                orig,
                                lower,
                                ql,
                                base,
                                hl,
                                me,
                                me,
                                oe,
                                out1.push(span(orig.subrange(os as int, oe as int), hl)),
                            )
                        },
                    },
                }
            },
        }
    }
}

proof fn lemma_walk_bounds(orig: Seq<char>, lower: Seq<char>, oi: nat, li: nat, target: nat)
    requires
        oi <= orig.len(),
    ensures
        walk(orig, lower, oi, li, target) matches Some(k) ==> oi <= k <= orig.len(),
    decreases orig.len() + 1 - oi,
{
    if li <= lower.len() && utf8_len(lower.take(li as int)) >= target {
    } else if oi >= orig.len() || li > lower.len() {
    } else {
        let n = char_lowercase(orig[oi as int]).len();
        if li + n <= lower.len() {
            lemma_walk_bounds(orig, lower, oi + 1, li + n, target);
        }
    }
}

/// The spans of `text` in style `base` with every match of the lower-case
/// query `query_lower` in the lower-case text `text_lower` highlighted in
/// style `hl` (see `hl_spans`); `None` where that search would not end or
/// would run out of text.
pub fn highlight_text(
    text: &str,
    text_lower: &str,
    query_lower: &str,
    base: Style,
    hl: Style,
) -> (r: Option<Vec<StyledSpan>>)
    ensures
        match hl_spans(text@, text_lower@, query_lower@, base, hl, 0, 0, 0, Seq::empty()) {
            Some(s) => r is Some && spans_view(r->0@) == s,
            None => r is None,
        },
{
    let orig = chars_of(text);
    let lower = chars_of(text_lower);
    let ql = chars_of(query_lower);
    let mut out: Vec<StyledSpan> = Vec::new();
    let mut start: usize = 0;
    let mut last_o: usize = 0;
    let ghost want = hl_spans(text@, text_lower@, query_lower@, base, hl, 0, 0, 0, Seq::empty());
    assert(spans_view(out@) =~= Seq::<SpanView>::empty());
    while start < lower.len()
        invariant
            want == hl_spans(text@, text_lower@, query_lower@, base, hl, 0, 0, 0, Seq::empty()),
            orig@ == text@,
            lower@ == text_lower@,
            ql@ == query_lower@,
            start <= lower.len(),
            last_o <= orig.len(),
            want == hl_spans(orig@, lower@, ql@, base, hl, start as nat, start as nat, last_o as nat, spans_view(out@)),
        ensures
            last_o <= orig.len(),
            orig@ == text@,
            want == Some(hl_rest(orig@, last_o as nat, spans_view(out@), base)),
        decreases lower.len() - start,
    {
        if ql.len() == 0 {
            assert(want is None);
            return None;
        }
        match find_chars(&lower, &ql, start) {
            None => {
                assert(want == Some(hl_rest(orig@, last_o as nat, spans_view(out@), base)));
                break;
            },
            Some(ms) => {
                proof {
                    lemma_find_from(lower@, ql@, start as nat);
                }
                assert(find_from(lower@, ql@, start as nat) == Some(ms as nat));
                let me = ms + ql.len();
                let t1 = lpos_of(&lower, ms);
                let os = match walk_exec(&orig, &lower, last_o, start, t1) {
                    Some(os) => os,
                    None => {
                        assert(want is None);
                        return None;
                    },
                };
                proof {
                    lemma_walk_bounds(orig@, lower@, last_o as nat, start as nat, t1 as nat);
                }
                let t2 = lpos_of(&lower, me);
                let oe = match walk_exec(&orig, &lower, os, ms, t2) {
                    Some(oe) => oe,
                    None => {
                        assert(want is None);
                        return None;
                    },
                };
                proof {
                    lemma_walk_bounds(orig@, lower@, os as nat, ms as nat, t2 as nat);
                }
                if os > last_o {
                    push_span(&mut out, StyledSpan::styled(string_of(&orig, last_o, os), base));
                }
                push_span(&mut out, StyledSpan::styled(string_of(&orig, os, oe), hl));
                assert(want == hl_spans(orig@, lower@, ql@, base, hl, me as nat, me as nat, oe as nat, spans_view(out@)));
                start = me;
                last_o = oe;
            },
        }
    }
    assert(want == Some(hl_rest(orig@, last_o as nat, spans_view(out@), base)));
    let ghost old_out = out@;
    if last_o < orig.len() {
        push_span(&mut out, StyledSpan::styled(string_of(&orig, last_o, orig.len()), base));
    }
    assert(spans_view(out@) == hl_rest(orig@, last_o as nat, spans_view(old_out), base));
    Some(out)
}

/// The spans that show span `s` with the matches of the lower-case query
/// `ql` highlighted in style `hl`; the span itself where the search would not
/// end or would run out of text.
pub open spec fn span_highlight(s: SpanView, ql: Seq<char>, hl: Style) -> Seq<SpanView> {
    match hl_spans(s.content, lowercase(s.content), ql, s.style, hl, 0, 0, 0, Seq::empty()) {
        Some(v) => v,
        None => seq![s],
    }
}

/// A line with every match of the lower-case query `ql` highlighted, span by
/// span.
pub open spec fn line_highlight(line: Seq<SpanView>, ql: Seq<char>, hl: Style) -> Seq<SpanView>
    decreases line.len(),
{
    if line.len() == 0 {
        Seq::empty()
    } else {
        line_highlight(line.drop_last(), ql, hl) + span_highlight(line.last(), ql, hl)
    }
}

/// A copy of a span.
pub fn copy_span(s: &StyledSpan) -> (r: StyledSpan)
    ensures
        r@ == s@,
{
    StyledSpan { content: s.content.clone(), style: s.style }
}

/// `line` with every case-insensitive match of `query` drawn in
/// `highlight_style`; the text around the matches keeps its style.
pub fn highlight_line(line: &StyledLine, query: &str, highlight_style: Style) -> (r: StyledLine)
    ensures
        r@ == line_highlight(line@, lowercase(query@), highlight_style),
{
    let query_lower = to_lowercase(query);
    let mut spans: Vec<StyledSpan> = Vec::new();
    let mut i: usize = 0;
    assert(line@.take(0) =~= Seq::<SpanView>::empty());
    while i < line.spans.len()
        invariant
            i <= line.spans.len(),
            query_lower@ == lowercase(query@),
            spans_view(spans@) == line_highlight(line@.take(i as int), query_lower@, highlight_style),
        decreases line.spans.len() - i,
    {
        let sp = &line.spans[i];
        let text_lower = to_lowercase(sp.content.as_str());
        let ghost before = spans_view(spans@);
        match highlight_text(sp.content.as_str(), text_lower.as_str(), query_lower.as_str(), sp.style, highlight_style) {
            Some(mut parts) => {
                spans.append(&mut parts);
                assert(spans_view(spans@) =~= before + span_highlight(sp@, query_lower@, highlight_style));
            },
            None => {
                push_span(&mut spans, copy_span(sp));
                assert(spans_view(spans@) =~= before + span_highlight(sp@, query_lower@, highlight_style));
            },
        }
        assert(line@.take(i + 1).drop_last() =~= line@.take(i as int));
        i = i + 1;
    }
    assert(line@.take(line.spans.len() as int) =~= line@);
    StyledLine::from_spans(spans)
}

// ---------------------------------------------------------------------------
// Laws of highlighting

proof fn lemma_line_text_push(out: Seq<SpanView>, x: Seq<char>, st: Style)
    ensures
        line_text(out.push(span(x, st))) == line_text(out) + x,
{
    assert(out.push(span(x, st)).drop_last() =~= out);
}

proof fn lemma_line_text_concat(a: Seq<SpanView>, b: Seq<SpanView>)
    ensures
        line_text(a + b) == line_text(a) + line_text(b),
    decreases b.len(),
{
    if b.len() == 0 {
        assert(a + b =~= a);
        assert(line_text(a) + Seq::<char>::empty() =~= line_text(a));
    } else {
        assert((a + b).drop_last() =~= a + b.drop_last());
        lemma_line_text_concat(a, b.drop_last());
        assert(line_text(a) + line_text(b.drop_last()) + b.last().content =~= line_text(a) + (
        line_text(b.drop_last()) + b.last().content));
    }
}

proof fn lemma_hl_spans_text(
    orig: Seq<char>,
    lower: Seq<char>,
    ql: Seq<char>,
    base: Style,
    hl: Style,
    start: nat,
    last_l: nat,
    last_o: nat,
    out: Seq<SpanView>,
)
    requires
        last_o <= orig.len(),
    ensures
        hl_spans(orig, lower, ql, base, hl, start, last_l, last_o, out) matches Some(v) ==> line_text(
            v,
        ) == line_text(out) + orig.subrange(last_o as int, orig.len() as int),
    decreases lower.len() + 1 - start,
{
    let rest = orig.subrange(last_o as int, orig.len() as int);
    if start >= lower.len() || (ql.len() > 0 && find_from(lower, ql, start) is None) {
        if last_o < orig.len() {
            lemma_line_text_push(out, rest, base);
        } else {
            assert(rest =~= Seq::<char>::empty());
            assert(line_text(out) + rest =~= line_text(out));
        }
    } else if ql.len() == 0 {
    } else {
        let ms = find_from(lower, ql, start)->0;
        lemma_find_from(lower, ql, start);
        let me = ms + ql.len();
        lemma_walk_bounds(orig, lower, last_o, last_l, utf8_len(lower.take(ms as int)));
        match walk(orig, lower, last_o, last_l, utf8_len(lower.take(ms as int))) {
            None => {},
            Some(os) => {
                lemma_walk_bounds(orig, lower, os, ms, utf8_len(lower.take(me as int)));
                match walk(orig, lower, os, ms, utf8_len(lower.take(me as int))) {
                    None => {},
                    Some(oe) => {
                        let out1 = if os > last_o {
                            out.push(span(orig.subrange(last_o as int, os as int), base))
                        } else {
                            out
                        };
                        let out2 = out1.push(span(orig.subrange(os as int, oe as int), hl));
                        if os > last_o {
                            lemma_line_text_push(out, orig.subrange(last_o as int, os as int), base);
                        }
                        assert(line_text(out1) == line_text(out) + orig.subrange(
                            last_o as int,
                            os as int,
                        ));
                        lemma_line_text_push(out1, orig.subrange(os as int, oe as int), hl);
                        lemma_hl_spans_text(orig, lower, ql, base, hl, me, me, oe, out2);
                        assert(line_text(out) + orig.subrange(last_o as int, os as int)
                            + orig.subrange(os as int, oe as int) + orig.subrange(
                            oe as int,
                            orig.len() as int,
                        ) =~= line_text(out) + rest);
                    },
                }
            },
        }
    }
}

proof fn lemma_line_text_single(x: SpanView)
    ensures
        line_text(seq![x]) == x.content,
{
    assert(seq![x].drop_last() =~= Seq::<SpanView>::empty());
    assert(line_text(Seq::<SpanView>::empty()) =~= Seq::<char>::empty());
    assert(seq![x].last() == x);
    assert(Seq::<char>::empty() + x.content =~= x.content);
}

/// Highlighting changes styles only: the highlighted line reads exactly as
/// the line did, character for character, whatever the query.
pub proof fn lemma_highlight_keeps_text(line: Seq<SpanView>, ql: Seq<char>, hl: Style)
    ensures
        line_text(line_highlight(line, ql, hl)) == line_text(line),
    decreases line.len(),
{
    if line.len() > 0 {
        lemma_highlight_keeps_text(line.drop_last(), ql, hl);
        let s = line.last();
        lemma_line_text_concat(line_highlight(line.drop_last(), ql, hl), span_highlight(s, ql, hl));
        lemma_hl_spans_text(s.content, lowercase(s.content), ql, s.style, hl, 0, 0, 0, Seq::empty());
        assert(line_text(Seq::<SpanView>::empty()) =~= Seq::<char>::empty());
        assert(s.content.subrange(0, s.content.len() as int) =~= s.content);
        assert(Seq::<char>::empty() + s.content =~= s.content);
        lemma_line_text_single(s);
    }
}

// ---------------------------------------------------------------------------
// Highlighting marks only matches

/// Each character of `orig` lower-cases to one character, and `lower` is
/// as long as `orig` (as for ASCII text).
pub open spec fn one_for_one(orig: Seq<char>, lower: Seq<char>) -> bool {
    &&& lower.len() == orig.len()
    &&& forall|i: int| 0 <= i < orig.len() ==> (#[trigger] char_lowercase(orig[i])).len() == 1
}

/// Every span is in the base or the highlight style, and every span in the
/// highlight style (where that differs from the base) is as long as the query
/// and stands where the query occurs in the lower-case text.
spec fn marks_are_matches(res: Seq<SpanView>, lower: Seq<char>, ql: Seq<char>, base: Style, hl: Style) -> bool {
    forall|k: int|
        0 <= k < res.len() ==> {
            &&& ((#[trigger] res[k]).style == base || res[k].style == hl)
            &&& (res[k].style == hl && hl != base ==> occurs_at(lower, ql, line_text(res.take(k)).len() as int)
                && res[k].content.len() == ql.len())
        }
}

proof fn lemma_walk_one_for_one(orig: Seq<char>, lower: Seq<char>, oi: nat, t: nat)
    requires
        one_for_one(orig, lower),
        oi <= t <= lower.len(),
    ensures
        walk(orig, lower, oi, oi, utf8_len(lower.take(t as int))) == Some(t),
    decreases t - oi,
{
    if oi < t {
        lemma_utf8_len_take_mono(lower, oi as int, t as int);
        assert(char_lowercase(orig[oi as int]).len() == 1);
        lemma_walk_one_for_one(orig, lower, oi + 1, t);
    }
}

proof fn lemma_marks_push(res: Seq<SpanView>, x: SpanView, lower: Seq<char>, ql: Seq<char>, base: Style, hl: Style)
    requires
        marks_are_matches(res, lower, ql, base, hl),
        x.style == base || x.style == hl,
        x.style == hl && hl != base ==> occurs_at(lower, ql, line_text(res).len() as int) && x.content.len()
            == ql.len(),
    ensures
        marks_are_matches(res.push(x), lower, ql, base, hl),
{
    let r2 = res.push(x);
    assert forall|k: int| 0 <= k < r2.len() implies {
        &&& ((#[trigger] r2[k]).style == base || r2[k].style == hl)
        &&& (r2[k].style == hl && hl != base ==> occurs_at(lower, ql, line_text(r2.take(k)).len() as int)
            && r2[k].content.len() == ql.len())
    } by {
        if k < res.len() {
            assert(r2[k] == res[k]);
            assert(r2.take(k) =~= res.take(k));
        } else {
            assert(r2.take(k) =~= res);
        }
    }
}

proof fn lemma_hl_marks(
    orig: Seq<char>,
    lower: Seq<char>,
    ql: Seq<char>,
    base: Style,
    hl: Style,
    start: nat,
    out: Seq<SpanView>,
)
    requires
        one_for_one(orig, lower),
        ql.len() > 0,
        start <= lower.len(),
        line_text(out).len() == start,
        marks_are_matches(out, lower, ql, base, hl),
    ensures
        hl_spans(orig, lower, ql, base, hl, start, start, start, out) matches Some(res)
            && marks_are_matches(res, lower, ql, base, hl),
    decreases lower.len() + 1 - start,
{
    if start >= lower.len() {
        if start < orig.len() {
            lemma_marks_push(out, span(orig.subrange(start as int, orig.len() as int), base), lower, ql, base, hl);
        }
    } else {
        lemma_find_from(lower, ql, start);
        match find_from(lower, ql, start) {
            None => {
                lemma_marks_push(out, span(orig.subrange(start as int, orig.len() as int), base), lower, ql, base, hl);
            },
            Some(ms) => {
                let me = ms + ql.len();
                lemma_walk_one_for_one(orig, lower, start, ms);
                lemma_walk_one_for_one(orig, lower, ms, me);
                let out1 = if ms > start {
                    out.push(span(orig.subrange(start as int, ms as int), base))
                } else {
                    out
                };
                if ms > start {
                    lemma_marks_push(out, span(orig.subrange(start as int, ms as int), base), lower, ql, base, hl);
                    lemma_line_text_push(out, orig.subrange(start as int, ms as int), base);
                }
                assert(line_text(out1).len() == ms);
                let m = span(orig.subrange(ms as int, me as int), hl);
                lemma_marks_push(out1, m, lower, ql, base, hl);
                lemma_line_text_push(out1, orig.subrange(ms as int, me as int), hl);
                lemma_hl_marks(orig, lower, ql, base, hl, me, out1.push(m));
            },
        }
    }
}

/// Highlighting marks matches and nothing else: where each character of the
/// text lower-cases to one character (as ASCII text does), a non-empty query
/// always gives a result, each of its pieces is in the text's own style or
/// the highlight style, and each piece in the highlight style (where that
/// differs from the text's style) is exactly as long as the query and stands
/// where the query occurs in the lower-case text; text outside the matches,
/// after the last one included, keeps its own style.
pub proof fn lemma_highlight_marks_only_matches(
    orig: Seq<char>,
    lower: Seq<char>,
    ql: Seq<char>,
    base: Style,
    hl: Style,
)
    requires
        one_for_one(orig, lower),
        ql.len() > 0,
    ensures
        hl_spans(orig, lower, ql, base, hl, 0, 0, 0, Seq::empty()) is Some,
        forall|k: int|
            #![trigger hl_spans(orig, lower, ql, base, hl, 0, 0, 0, Seq::empty())->0[k]]
            0 <= k < hl_spans(orig, lower, ql, base, hl, 0, 0, 0, Seq::empty())->0.len() ==> {
                &&& (hl_spans(orig, lower, ql, base, hl, 0, 0, 0, Seq::empty())->0[k].style == base
                    || hl_spans(orig, lower, ql, base, hl, 0, 0, 0, Seq::empty())->0[k].style == hl)
                &&& (hl_spans(orig, lower, ql, base, hl, 0, 0, 0, Seq::empty())->0[k].style == hl && hl
                    != base ==> occurs_at(
                    lower,
                    ql,
                    line_text(hl_spans(orig, lower, ql, base, hl, 0, 0, 0, Seq::empty())->0.take(k)).len() as int,
                ) && hl_spans(orig, lower, ql, base, hl, 0, 0, 0, Seq::empty())->0[k].content.len() == ql.len())
            },
{
    assert(line_text(Seq::<SpanView>::empty()) =~= Seq::<char>::empty());
    lemma_hl_marks(orig, lower, ql, base, hl, 0, Seq::empty());
}

} // verus!
