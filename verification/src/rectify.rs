//! Rectification: turning the malformed raw dump into a single valid JSON
//! object keyed by word.
//!
//! The raw dump is a sequence of newline-terminated records. A well-formed
//! record opens with three metadata fields — `"word": "W", "lang": "NAME",
//! "lang_code": "CODE", ` — followed by the rest of the definition object,
//! whose opening brace is missing. Rectification strips the metadata, restores
//! the brace, and emits `"W":{REST}` entries, joined by commas and wrapped in
//! braces. Records of any other shape are skipped.
//!
//! The work is split over a fixed number of chunks of whole lines, one worker
//! each, and the chunk fragments are assembled by chunk position; the final
//! text does not depend on the chunk count.
use crate::json::{json_dict_entries, parse_dict_entries};
use crate::registry::OfflineDict;
use vstd::prelude::*;

verus! {

/// The one fatal rectification failure: the assembled text does not parse as
/// a JSON object, so it must not be published.
#[derive(Debug, Clone, Copy)]
pub enum RectifyError {
    Malformed,
}

// ---------------------------------------------------------------------------
// The character-level model.
// ---------------------------------------------------------------------------
/// Index of the first occurrence of `c` in `s` at or after `from`, or
/// `s.len()` when there is none.
pub open spec fn find_from(s: Seq<char>, c: char, from: int) -> int
    decreases s.len() - from,
{
    if from < 0 || from >= s.len() {
        s.len() as int
    } else if s[from] == c {
        from
    } else {
        find_from(s, c, from + 1)
    }
}

pub proof fn lemma_find_from(s: Seq<char>, c: char, from: int)
    requires
        0 <= from <= s.len(),
    ensures
        from <= find_from(s, c, from) <= s.len(),
        find_from(s, c, from) < s.len() ==> s[find_from(s, c, from)] == c,
        forall|j: int| from <= j < find_from(s, c, from) ==> s[j] != c,
    decreases s.len() - from,
{
    if from < s.len() && s[from] != c {
        lemma_find_from(s, c, from + 1);
    }
}

/// A position where scanning stopped — no `c` before it, `c` at it (or the
/// end of the string) — is exactly `find_from`.
pub proof fn lemma_find_from_at(s: Seq<char>, c: char, from: int, i: int)
    requires
        0 <= from <= i <= s.len(),
        forall|j: int| from <= j < i ==> s[j] != c,
        i < s.len() ==> s[i] == c,
    ensures
        find_from(s, c, from) == i,
    decreases i - from,
{
    if from < i {
        lemma_find_from_at(s, c, from + 1, i);
    }
}

/// The newline-terminated lines of `s` starting at `from`; characters after
/// the last newline belong to no line and are dropped.
pub open spec fn lines_from(s: Seq<char>, from: int) -> Seq<Seq<char>>
    decreases s.len() - from,
{
    if from < 0 || from > s.len() {
        Seq::empty()
    } else {
        let j = find_from(s, '\n', from);
        if j < from || j >= s.len() {
            Seq::empty()
        } else {
            seq![s.subrange(from, j)] + lines_from(s, j + 1)
        }
    }
}

pub open spec fn split_lines(s: Seq<char>) -> Seq<Seq<char>> {
    lines_from(s, 0)
}

// ---------------------------------------------------------------------------
// Record shape.
// ---------------------------------------------------------------------------
pub open spec fn word_tag() -> Seq<char> {
    "\"word\": \""@
}

pub open spec fn lang_tag() -> Seq<char> {
    "\", \"lang\": \""@
}

pub open spec fn code_tag() -> Seq<char> {
    "\", \"lang_code\": \""@
}

pub open spec fn meta_end_tag() -> Seq<char> {
    "\", "@
}

/// `pre` occurs in `s` at position `at`.
pub open spec fn begins_with_at(s: Seq<char>, pre: Seq<char>, at: int) -> bool {
    0 <= at && at + pre.len() <= s.len() && s.subrange(at, at + pre.len()) == pre
}

/// Index of the quote closing the word field: the first `"` after the
/// opening `"word": "` tag.
pub open spec fn word_quote_index(line: Seq<char>) -> int {
    find_from(line, '"', word_tag().len() as int)
}

/// A well-formed record line: the three metadata fields, with the given
/// language name and code, followed by the definition payload.
pub open spec fn spec_line_matches(line: Seq<char>, name: Seq<char>, code: Seq<char>) -> bool {
    let q = word_quote_index(line);
    &&& begins_with_at(line, word_tag(), 0)
    &&& word_tag().len() < q < line.len()
    &&& begins_with_at(line, lang_tag(), q)
    &&& begins_with_at(line, name, q + lang_tag().len())
    &&& begins_with_at(line, code_tag(), q + lang_tag().len() + name.len())
    &&& begins_with_at(line, code, q + lang_tag().len() + name.len() + code_tag().len())
    &&& begins_with_at(
        line,
        meta_end_tag(),
        q + lang_tag().len() + name.len() + code_tag().len() + code.len(),
    )
}

/// The word hoisted out of a matching record.
pub open spec fn spec_word(line: Seq<char>) -> Seq<char> {
    line.subrange(word_tag().len() as int, word_quote_index(line))
}

/// Where the definition payload of a matching record begins.
pub open spec fn spec_rest_index(line: Seq<char>, name: Seq<char>, code: Seq<char>) -> int {
    word_quote_index(line) + lang_tag().len() + name.len() + code_tag().len() + code.len()
        + meta_end_tag().len()
}

/// The definition payload: everything after the stripped metadata.
pub open spec fn spec_rest(line: Seq<char>, name: Seq<char>, code: Seq<char>) -> Seq<char> {
    line.subrange(spec_rest_index(line, name, code), line.len() as int)
}

/// What one line contributes to the rectified text: `"W":{REST},` for a
/// matching record, nothing otherwise.
pub open spec fn spec_line_entry(line: Seq<char>, name: Seq<char>, code: Seq<char>) -> Seq<char> {
    if spec_line_matches(line, name, code) {
        seq!['"'] + spec_word(line) + "\":{"@ + spec_rest(line, name, code) + seq![',']
    } else {
        Seq::empty()
    }
}

// ---------------------------------------------------------------------------
// Fragments and assembly.
// ---------------------------------------------------------------------------
/// The concatenated entries of a run of lines.
pub open spec fn spec_fragment(lines: Seq<Seq<char>>, name: Seq<char>, code: Seq<char>) -> Seq<
    char,
>
    decreases lines.len(),
{
    if lines.len() == 0 {
        Seq::empty()
    } else {
        spec_line_entry(lines[0], name, code) + spec_fragment(lines.drop_first(), name, code)
    }
}

/// Fragments concatenate: processing two runs of lines one after the other
/// yields the fragment of the combined run.
pub proof fn lemma_fragment_concat(
    a: Seq<Seq<char>>,
    b: Seq<Seq<char>>,
    name: Seq<char>,
    code: Seq<char>,
)
    ensures
        spec_fragment(a + b, name, code) == spec_fragment(a, name, code) + spec_fragment(
            b,
            name,
            code,
        ),
    decreases a.len(),
{
    if a.len() == 0 {
        assert(a + b =~= b);
        assert(spec_fragment(a, name, code) + spec_fragment(b, name, code) =~= spec_fragment(
            b,
            name,
            code,
        ));
    } else {
        assert((a + b).drop_first() =~= a.drop_first() + b);
        lemma_fragment_concat(a.drop_first(), b, name, code);
        assert((a + b)[0] == a[0]);
        assert(spec_line_entry(a[0], name, code) + (spec_fragment(a.drop_first(), name, code)
            + spec_fragment(b, name, code)) =~= (spec_line_entry(a[0], name, code)
            + spec_fragment(a.drop_first(), name, code)) + spec_fragment(b, name, code));
    }
}

/// Wraps a fragment in braces, dropping the trailing comma that every entry
/// carries.
pub open spec fn spec_assemble(frag: Seq<char>) -> Seq<char> {
    if frag.len() == 0 {
        seq!['{'] + seq!['}']
    } else {
        seq!['{'] + frag.drop_last() + seq!['}']
    }
}

/// The rectified text of a raw dump. This canonical form processes the lines
/// in one run; it is what rectification produces for every chunk count.
pub open spec fn spec_rectified(dump: Seq<char>, name: Seq<char>, code: Seq<char>) -> Seq<char> {
    spec_assemble(spec_fragment(split_lines(dump), name, code))
}

// ---------------------------------------------------------------------------
// The chunked model: the line list divided into `n` equal slots of whole
// lines, the last chunk absorbing the remainder, each chunk rectified on its
// own and the fragments assembled by chunk position.
// ---------------------------------------------------------------------------
pub open spec fn chunk_lo(l: int, n: int, i: int) -> int {
    i * (l / n)
}

pub open spec fn chunk_hi(l: int, n: int, i: int) -> int {
    if i == n - 1 {
        l
    } else {
        (i + 1) * (l / n)
    }
}

/// The fragments of chunks `i..n`, concatenated in chunk order.
pub open spec fn spec_chunk_suffix(
    lines: Seq<Seq<char>>,
    name: Seq<char>,
    code: Seq<char>,
    n: int,
    i: int,
) -> Seq<char>
    decreases n - i,
{
    if i < 0 || i >= n {
        Seq::empty()
    } else {
        spec_fragment(
            lines.subrange(chunk_lo(lines.len() as int, n, i), chunk_hi(lines.len() as int, n, i)),
            name,
            code,
        ) + spec_chunk_suffix(lines, name, code, n, i + 1)
    }
}

/// The rectified text produced with `n` workers: per-chunk fragments,
/// assembled positionally.
pub open spec fn spec_chunked_rectified(
    dump: Seq<char>,
    name: Seq<char>,
    code: Seq<char>,
    n: int,
) -> Seq<char> {
    spec_assemble(spec_chunk_suffix(split_lines(dump), name, code, n, 0))
}

proof fn lemma_chunk_bounds(l: int, n: int, i: int)
    requires
        0 <= l,
        1 <= n,
        0 <= i < n,
    ensures
        0 <= chunk_lo(l, n, i) <= chunk_hi(l, n, i) <= l,
        i < n - 1 ==> chunk_hi(l, n, i) == chunk_lo(l, n, i + 1),
{
    let slot = l / n;
    vstd::arithmetic::div_mod::lemma_div_is_ordered(0, l, n);
    vstd::arithmetic::div_mod::lemma_fundamental_div_mod(l, n);
    vstd::arithmetic::div_mod::lemma_mod_bound(l, n);
    assert(n * slot <= l);
    vstd::arithmetic::mul::lemma_mul_inequality(0, i, slot);
    vstd::arithmetic::mul::lemma_mul_inequality(i, i + 1, slot);
    vstd::arithmetic::mul::lemma_mul_inequality(i + 1, n, slot);
    vstd::arithmetic::mul::lemma_mul_is_commutative(i + 1, slot);
    vstd::arithmetic::mul::lemma_mul_is_commutative(n, slot);
}

/// Concatenating the fragments of chunks `i..n` processes exactly the lines
/// from the start of chunk `i` to the end of the list.
proof fn lemma_chunk_suffix_is_fragment(
    lines: Seq<Seq<char>>,
    name: Seq<char>,
    code: Seq<char>,
    n: int,
    i: int,
)
    requires
        1 <= n,
        0 <= i < n,
    ensures
        spec_chunk_suffix(lines, name, code, n, i) == spec_fragment(
            lines.subrange(chunk_lo(lines.len() as int, n, i), lines.len() as int),
            name,
            code,
        ),
    decreases n - i,
{
    let l = lines.len() as int;
    lemma_chunk_bounds(l, n, i);
    if i == n - 1 {
        assert(spec_chunk_suffix(lines, name, code, n, n) =~= Seq::<char>::empty());
        assert(spec_fragment(lines.subrange(chunk_lo(l, n, i), l), name, code) + Seq::<
            char,
        >::empty() =~= spec_fragment(lines.subrange(chunk_lo(l, n, i), l), name, code));
    } else {
        lemma_chunk_suffix_is_fragment(lines, name, code, n, i + 1);
        let lo = chunk_lo(l, n, i);
        let mid = chunk_hi(l, n, i);
        lemma_chunk_bounds(l, n, i + 1);
        assert(lines.subrange(lo, mid) + lines.subrange(mid, l) =~= lines.subrange(lo, l));
        lemma_fragment_concat(lines.subrange(lo, mid), lines.subrange(mid, l), name, code);
    }
}

/// Chunk-count invariance: rectifying a fixed raw dump with any positive
/// number of workers yields the same final text, hence the same key/value
/// set.
pub proof fn lemma_chunk_count_invariance(
    dump: Seq<char>,
    name: Seq<char>,
    code: Seq<char>,
    n1: int,
    n2: int,
)
    requires
        1 <= n1,
        1 <= n2,
    ensures
        spec_chunked_rectified(dump, name, code, n1) == spec_chunked_rectified(
            dump,
            name,
            code,
            n2,
        ),
        spec_chunked_rectified(dump, name, code, n1) == spec_rectified(dump, name, code),
{
    lemma_chunked_is_rectified(dump, name, code, n1);
    lemma_chunked_is_rectified(dump, name, code, n2);
}

// ---------------------------------------------------------------------------
// The reference reading of a dump: each record parsed independently, its
// metadata stripped, yielding a word/definition pair; the rectified text is
// exactly the brace-wrapped, comma-joined serialization of those pairs.
// ---------------------------------------------------------------------------
/// The word/definition pairs of a run of lines, in line order, records of the
/// wrong shape skipped.
pub open spec fn spec_entries(lines: Seq<Seq<char>>, name: Seq<char>, code: Seq<char>) -> Seq<
    (Seq<char>, Seq<char>),
>
    decreases lines.len(),
{
    if lines.len() == 0 {
        Seq::empty()
    } else {
        (if spec_line_matches(lines[0], name, code) {
            seq![(spec_word(lines[0]), seq!['{'] + spec_rest(lines[0], name, code))]
        } else {
            Seq::empty()
        }) + spec_entries(lines.drop_first(), name, code)
    }
}

/// One pair serialized as a JSON member: `"W":V`.
pub open spec fn spec_pair_text(p: (Seq<char>, Seq<char>)) -> Seq<char> {
    seq!['"'] + p.0 + "\":"@ + p.1
}

/// Members joined by commas.
pub open spec fn spec_join(es: Seq<(Seq<char>, Seq<char>)>) -> Seq<char>
    decreases es.len(),
{
    if es.len() == 0 {
        Seq::empty()
    } else if es.len() == 1 {
        spec_pair_text(es[0])
    } else {
        spec_pair_text(es[0]) + seq![','] + spec_join(es.drop_first())
    }
}

/// Members each followed by a comma.
pub open spec fn spec_comma_concat(es: Seq<(Seq<char>, Seq<char>)>) -> Seq<char>
    decreases es.len(),
{
    if es.len() == 0 {
        Seq::empty()
    } else {
        spec_pair_text(es[0]) + seq![','] + spec_comma_concat(es.drop_first())
    }
}

proof fn lemma_fragment_is_comma_concat(lines: Seq<Seq<char>>, name: Seq<char>, code: Seq<char>)
    ensures
        spec_fragment(lines, name, code) == spec_comma_concat(spec_entries(lines, name, code)),
    decreases lines.len(),
{
    if lines.len() > 0 {
        lemma_fragment_is_comma_concat(lines.drop_first(), name, code);
        let rest_entries = spec_entries(lines.drop_first(), name, code);
        if spec_line_matches(lines[0], name, code) {
            let p = (spec_word(lines[0]), seq!['{'] + spec_rest(lines[0], name, code));
            assert(spec_entries(lines, name, code) =~= seq![p] + rest_entries);
            assert((seq![p] + rest_entries).drop_first() =~= rest_entries);
            assert(spec_line_entry(lines[0], name, code) =~= spec_pair_text(p) + seq![',']) by {
                reveal_strlit("\":{");
                reveal_strlit("\":");
            }
            assert(spec_pair_text(p) + seq![','] + spec_comma_concat(rest_entries)
                =~= spec_line_entry(lines[0], name, code) + spec_fragment(
                lines.drop_first(),
                name,
                code,
            ));
        } else {
            assert(spec_entries(lines, name, code) =~= rest_entries);
            assert(spec_line_entry(lines[0], name, code) + spec_fragment(
                lines.drop_first(),
                name,
                code,
            ) =~= spec_fragment(lines.drop_first(), name, code));
        }
    }
}

proof fn lemma_comma_concat_is_join(es: Seq<(Seq<char>, Seq<char>)>)
    ensures
        es.len() == 0 ==> spec_comma_concat(es) == Seq::<char>::empty(),
        es.len() > 0 ==> spec_comma_concat(es) == spec_join(es) + seq![','],
    decreases es.len(),
{
    if es.len() == 1 {
        assert(spec_comma_concat(es.drop_first()) =~= Seq::<char>::empty());
        assert(spec_pair_text(es[0]) + seq![','] + Seq::<char>::empty() =~= spec_pair_text(es[0])
            + seq![',']);
    } else if es.len() > 1 {
        lemma_comma_concat_is_join(es.drop_first());
        assert(spec_pair_text(es[0]) + seq![','] + (spec_join(es.drop_first()) + seq![','])
            =~= (spec_pair_text(es[0]) + seq![','] + spec_join(es.drop_first())) + seq![',']);
    }
}

/// The rectified text is the serialization of the reference entries: each
/// record parsed on its own, metadata stripped, the word hoisted to a key,
/// the pairs joined in order and wrapped in braces. The resulting mapping is
/// therefore the reference mapping (for duplicate words, the later record
/// wins, as in any in-order associative write).
pub proof fn lemma_rectified_matches_reference(dump: Seq<char>, name: Seq<char>, code: Seq<char>)
    ensures
        spec_rectified(dump, name, code) == seq!['{'] + spec_join(
            spec_entries(split_lines(dump), name, code),
        ) + seq!['}'],
{
    let lines = split_lines(dump);
    let es = spec_entries(lines, name, code);
    let frag = spec_fragment(lines, name, code);
    lemma_fragment_is_comma_concat(lines, name, code);
    lemma_comma_concat_is_join(es);
    if es.len() == 0 {
        assert(seq!['{'] + seq!['}'] =~= seq!['{'] + spec_join(es) + seq!['}']);
    } else {
        assert((spec_join(es) + seq![',']).drop_last() =~= spec_join(es));
        assert(seq!['{'] + frag.drop_last() + seq!['}'] =~= seq!['{'] + spec_join(es)
            + seq!['}']);
    }
}

/// Positional assembly of per-chunk fragments equals the one-run canonical
/// form.
pub proof fn lemma_chunked_is_rectified(dump: Seq<char>, name: Seq<char>, code: Seq<char>, n: int)
    requires
        1 <= n,
    ensures
        spec_chunked_rectified(dump, name, code, n) == spec_rectified(dump, name, code),
{
    let lines = split_lines(dump);
    let l = lines.len() as int;
    lemma_chunk_suffix_is_fragment(lines, name, code, n, 0);
    assert(chunk_lo(l, n, 0) == 0) by {
        vstd::arithmetic::mul::lemma_mul_basics(l / n);
    }
    assert(lines.subrange(0, l) =~= lines);
}

// ---------------------------------------------------------------------------
// The executable rectifier.
// ---------------------------------------------------------------------------
/// A subrange of a subrange is a subrange of the whole.
proof fn lemma_sub_sub(s: Seq<char>, lo: int, hi: int, a: int, b: int)
    requires
        0 <= lo <= hi <= s.len(),
        lo <= a <= b <= hi,
    ensures
        s.subrange(lo, hi).subrange(a - lo, b - lo) == s.subrange(a, b),
{
    assert(s.subrange(lo, hi).subrange(a - lo, b - lo) =~= s.subrange(a, b));
}

/// A pattern occurs in a line at `k` exactly when it occurs in the whole
/// text at the corresponding absolute position.
proof fn lemma_begins_abs(s: Seq<char>, lo: int, hi: int, pat: Seq<char>, k: int)
    requires
        0 <= lo <= hi <= s.len(),
        0 <= k,
        lo + k <= hi,
    ensures
        begins_with_at(s.subrange(lo, hi), pat, k) == (lo + k + pat.len() <= hi && s.subrange(
            lo + k,
            lo + k + pat.len(),
        ) == pat),
{
    if lo + k + pat.len() <= hi {
        lemma_sub_sub(s, lo, hi, lo + k, lo + k + pat.len() as int);
    }
}

/// First occurrence of `c` within the line `s[lo..hi]`, at or after the
/// line-relative position `from_rel`; returns a line-relative index.
fn find_char_in_range(s: &str, lo: usize, hi: usize, from_rel: usize, c: char) -> (r: usize)
    requires
        lo <= hi,
        hi as int <= s@.len(),
        from_rel <= hi - lo,
    ensures
        r == find_from(s@.subrange(lo as int, hi as int), c, from_rel as int),
        from_rel <= r <= hi - lo,
{
    let ghost line = s@.subrange(lo as int, hi as int);
    let mut i = from_rel;
    while lo + i < hi
        invariant
            from_rel <= i,
            lo + i <= hi,
            lo <= hi,
            hi as int <= s@.len(),
            line == s@.subrange(lo as int, hi as int),
            forall|j: int| from_rel <= j < i ==> line[j] != c,
        decreases hi - lo - i,
    {
        if s.get_char(lo + i) == c {
            proof {
                lemma_find_from_at(line, c, from_rel as int, i as int);
            }
            return i;
        }
        i += 1;
    }
    proof {
        lemma_find_from_at(line, c, from_rel as int, (hi - lo) as int);
    }
    i
}

/// Whether `pat` occurs in `s` at position `a`, staying within `s[..hi]`.
pub(crate) fn has_pat_at(s: &str, a: usize, hi: usize, pat: &str) -> (r: bool)
    requires
        a <= hi,
        hi as int <= s@.len(),
    ensures
        r == (a + pat@.len() <= hi && s@.subrange(a as int, a as int + pat@.len() as int)
            == pat@),
{
    let pl = pat.unicode_len();
    if pl > hi - a {
        return false;
    }
    let mut k: usize = 0;
    while k < pl
        invariant
            k <= pl,
            a + pl <= hi,
            hi as int <= s@.len(),
            pl == pat@.len(),
            forall|j: int| 0 <= j < k ==> s@[a + j] == pat@[j],
        decreases pl - k,
    {
        if s.get_char(a + k) != pat.get_char(k) {
            proof {
                assert(s@.subrange(a as int, a as int + pat@.len() as int)[k as int] == s@[a
                    + k]);
            }
            return false;
        }
        k += 1;
    }
    proof {
        assert(s@.subrange(a as int, a as int + pat@.len() as int) =~= pat@);
    }
    true
}

/// Matches one line against the record shape. On a match, returns the
/// absolute index of the quote closing the word and the absolute index where
/// the definition payload begins.
fn match_line(s: &str, lo: usize, hi: usize, name: &str, code: &str) -> (r: Option<
    (usize, usize),
>)
    requires
        lo <= hi,
        hi as int <= s@.len(),
    ensures
        ({
            let line = s@.subrange(lo as int, hi as int);
            match r {
                Some(pair) => spec_line_matches(line, name@, code@) && pair.0 == lo
                    + word_quote_index(line) && pair.1 == lo + spec_rest_index(
                    line,
                    name@,
                    code@,
                ),
                None => !spec_line_matches(line, name@, code@),
            }
        }),
{
    let ghost line = s@.subrange(lo as int, hi as int);
    let word_tag_str = "\"word\": \"";
    let lang_tag_str = "\", \"lang\": \"";
    let code_tag_str = "\", \"lang_code\": \"";
    let meta_end_str = "\", ";
    let wt = word_tag_str.unicode_len();
    if !has_pat_at(s, lo, hi, word_tag_str) {
        proof {
            lemma_begins_abs(s@, lo as int, hi as int, word_tag(), 0);
        }
        return None;
    }
    proof {
        lemma_begins_abs(s@, lo as int, hi as int, word_tag(), 0);
    }
    let q_rel = find_char_in_range(s, lo, hi, wt, '"');
    if q_rel == wt || lo + q_rel == hi {
        return None;
    }
    let q_abs = lo + q_rel;
    if !has_pat_at(s, q_abs, hi, lang_tag_str) {
        proof {
            lemma_begins_abs(s@, lo as int, hi as int, lang_tag(), q_rel as int);
        }
        return None;
    }
    proof {
        lemma_begins_abs(s@, lo as int, hi as int, lang_tag(), q_rel as int);
    }
    let a2 = q_abs + lang_tag_str.unicode_len();
    if !has_pat_at(s, a2, hi, name) {
        proof {
            lemma_begins_abs(s@, lo as int, hi as int, name@, a2 - lo);
        }
        return None;
    }
    proof {
        lemma_begins_abs(s@, lo as int, hi as int, name@, a2 - lo);
    }
    let a3 = a2 + name.unicode_len();
    if !has_pat_at(s, a3, hi, code_tag_str) {
        proof {
            lemma_begins_abs(s@, lo as int, hi as int, code_tag(), a3 - lo);
        }
        return None;
    }
    proof {
        lemma_begins_abs(s@, lo as int, hi as int, code_tag(), a3 - lo);
    }
    let a4 = a3 + code_tag_str.unicode_len();
    if !has_pat_at(s, a4, hi, code) {
        proof {
            lemma_begins_abs(s@, lo as int, hi as int, code@, a4 - lo);
        }
        return None;
    }
    proof {
        lemma_begins_abs(s@, lo as int, hi as int, code@, a4 - lo);
    }
    let a5 = a4 + code.unicode_len();
    if !has_pat_at(s, a5, hi, meta_end_str) {
        proof {
            lemma_begins_abs(s@, lo as int, hi as int, meta_end_tag(), a5 - lo);
        }
        return None;
    }
    proof {
        lemma_begins_abs(s@, lo as int, hi as int, meta_end_tag(), a5 - lo);
    }
    let a6 = a5 + meta_end_str.unicode_len();
    Some((q_abs, a6))
}

/// Appends what the line `s[lo..hi]` contributes to the rectified text.
fn append_line_entry(out: &mut String, s: &str, lo: usize, hi: usize, name: &str, code: &str)
    requires
        lo <= hi,
        hi as int <= s@.len(),
    ensures
        final (out)@ == old(out)@ + spec_line_entry(
            s@.subrange(lo as int, hi as int),
            name@,
            code@,
        ),
{
    let ghost line = s@.subrange(lo as int, hi as int);
    match match_line(s, lo, hi, name, code) {
        None => {
            proof {
                assert(old(out)@ + spec_line_entry(line, name@, code@) =~= old(out)@);
            }
        },
        Some((q_abs, rest_abs)) => {
            let wt = "\"word\": \"".unicode_len();
            out.append("\"");
            out.append(s.substring_char(lo + wt, q_abs));
            out.append("\":{");
            out.append(s.substring_char(rest_abs, hi));
            out.append(",");
            proof {
                reveal_strlit("\"");
                reveal_strlit(",");
                lemma_sub_sub(s@, lo as int, hi as int, lo + wt, q_abs as int);
                lemma_sub_sub(s@, lo as int, hi as int, rest_abs as int, hi as int);
                assert(final (out)@ =~= old(out)@ + spec_line_entry(line, name@, code@));
            }
        },
    }
}

/// Line boundaries are in range.
pub open spec fn valid_pairs(s: Seq<char>, ps: Seq<(usize, usize)>) -> bool {
    forall|k: int| #![trigger ps[k]] 0 <= k < ps.len() ==> ps[k].0 <= ps[k].1 && ps[k].1 <= s.len()
}

/// The lines denoted by a list of boundary pairs.
pub open spec fn pairs_lines(s: Seq<char>, ps: Seq<(usize, usize)>) -> Seq<Seq<char>> {
    Seq::new(ps.len(), |k: int| s.subrange(ps[k].0 as int, ps[k].1 as int))
}

/// Computes the boundaries of the newline-terminated lines of `s`.
fn split_into_lines(s: &str) -> (lines: Vec<(usize, usize)>)
    ensures
        valid_pairs(s@, lines@),
        pairs_lines(s@, lines@) == split_lines(s@),
{
    let n = s.unicode_len();
    let mut lines: Vec<(usize, usize)> = Vec::new();
    let mut pos: usize = 0;
    proof {
        assert(s@.subrange(0, n as int) =~= s@);
    }
    while pos < n
        invariant
            pos <= n,
            n == s@.len(),
            valid_pairs(s@, lines@),
            split_lines(s@) == pairs_lines(s@, lines@) + lines_from(s@, pos as int),
        decreases n - pos,
    {
        proof {
            assert(s@.subrange(0, n as int) =~= s@);
        }
        let j = find_char_in_range(s, 0, n, pos, '\n');
        proof {
            lemma_find_from(s@, '\n', pos as int);
        }
        if j < n {
            let ghost prev = lines@;
            lines.push((pos, j));
            proof {
                assert(pairs_lines(s@, lines@) =~= pairs_lines(s@, prev) + seq![
                    s@.subrange(pos as int, j as int),
                ]);
                assert(pairs_lines(s@, prev) + (seq![s@.subrange(pos as int, j as int)]
                    + lines_from(s@, j + 1)) =~= (pairs_lines(s@, prev) + seq![
                    s@.subrange(pos as int, j as int),
                ]) + lines_from(s@, j + 1));
            }
            pos = j + 1;
        } else {
            proof {
                assert(lines_from(s@, pos as int) =~= Seq::<Seq<char>>::empty());
                assert(lines_from(s@, n as int) =~= Seq::<Seq<char>>::empty());
                assert(pairs_lines(s@, lines@) + Seq::<Seq<char>>::empty() =~= pairs_lines(
                    s@,
                    lines@,
                ));
            }
            pos = n;
        }
    }
    proof {
        assert(lines_from(s@, n as int) =~= Seq::<Seq<char>>::empty());
        assert(pairs_lines(s@, lines@) + Seq::<Seq<char>>::empty() =~= pairs_lines(s@, lines@));
    }
    lines
}

/// One worker's output: the fragment of the chunk of lines `lo..hi`.
fn chunk_fragment(
    s: &str,
    lines: &Vec<(usize, usize)>,
    lo: usize,
    hi: usize,
    name: &str,
    code: &str,
) -> (frag: String)
    requires
        lo <= hi,
        hi as int <= lines@.len(),
        valid_pairs(s@, lines@),
    ensures
        frag@ == spec_fragment(
            pairs_lines(s@, lines@).subrange(lo as int, hi as int),
            name@,
            code@,
        ),
{
    let ghost pl = pairs_lines(s@, lines@);
    let mut frag = String::new();
    let mut j = lo;
    proof {
        assert(pl.subrange(lo as int, lo as int) =~= Seq::<Seq<char>>::empty());
    }
    while j < hi
        invariant
            lo <= j <= hi,
            hi as int <= lines@.len(),
            valid_pairs(s@, lines@),
            pl == pairs_lines(s@, lines@),
            frag@ == spec_fragment(pl.subrange(lo as int, j as int), name@, code@),
        decreases hi - j,
    {
        let (a, b) = lines[j];
        append_line_entry(&mut frag, s, a, b, name, code);
        proof {
            lemma_fragment_concat(pl.subrange(lo as int, j as int), seq![pl[j as int]], name@,
                code@);
            assert(pl.subrange(lo as int, j as int) + seq![pl[j as int]] =~= pl.subrange(
                lo as int,
                j as int + 1,
            ));
            assert(seq![pl[j as int]].drop_first() =~= Seq::<Seq<char>>::empty());
            assert(spec_fragment(Seq::<Seq<char>>::empty(), name@, code@) == Seq::<char>::empty());
            assert(spec_fragment(seq![pl[j as int]], name@, code@) =~= spec_line_entry(
                pl[j as int],
                name@,
                code@,
            ));
            assert(pl[j as int] == s@.subrange(a as int, b as int));
        }
        j += 1;
    }
    frag
}

/// Rectifies a raw dump: splits it into `workers` chunks of whole lines,
/// rectifies each chunk, and assembles the fragments by chunk position. The
/// result is the same for every worker count.
pub fn rectify_text(dump: &str, name: &str, code: &str, workers: usize) -> (out: String)
    requires
        1 <= workers,
    ensures
        out@ == spec_rectified(dump@, name@, code@),
        out@ == spec_chunked_rectified(dump@, name@, code@, workers as int),
{
    let ghost pl = split_lines(dump@);
    let lines = split_into_lines(dump);
    let l = lines.len();
    let slot = l / workers;
    let mut body = String::new();
    let mut lo: usize = 0;
    let mut i: usize = 0;
    proof {
        assert(pl.subrange(0, 0) =~= Seq::<Seq<char>>::empty());
        vstd::arithmetic::mul::lemma_mul_basics(slot as int);
    }
    while i < workers
        invariant
            1 <= workers,
            i <= workers,
            l == lines@.len(),
            slot == l as int / workers as int,
            valid_pairs(dump@, lines@),
            pl == pairs_lines(dump@, lines@),
            pl == split_lines(dump@),
            i < workers ==> lo as int == chunk_lo(l as int, workers as int, i as int),
            i == workers ==> lo == l,
            lo <= l,
            body@ == spec_fragment(pl.subrange(0, lo as int), name@, code@),
        decreases workers - i,
    {
        proof {
            lemma_chunk_bounds(l as int, workers as int, i as int);
            vstd::arithmetic::mul::lemma_mul_is_distributive_add_other_way(
                slot as int,
                i as int,
                1,
            );
            vstd::arithmetic::mul::lemma_mul_is_commutative(slot as int, i as int + 1);
            vstd::arithmetic::mul::lemma_mul_is_commutative(slot as int, i as int);
        }
        let hi = if i + 1 == workers {
            l
        } else {
            lo + slot
        };
        let frag = chunk_fragment(dump, &lines, lo, hi, name, code);
        body.append(frag.as_str());
        proof {
            lemma_fragment_concat(
                pl.subrange(0, lo as int),
                pl.subrange(lo as int, hi as int),
                name@,
                code@,
            );
            assert(pl.subrange(0, lo as int) + pl.subrange(lo as int, hi as int) =~= pl.subrange(
                0,
                hi as int,
            ));
        }
        lo = hi;
        i += 1;
    }
    proof {
        assert(pl.subrange(0, l as int) =~= pl);
    }
    let blen = body.unicode_len();
    let mut out = String::from_str("{");
    if blen > 0 {
        out.append(body.as_str().substring_char(0, blen - 1));
    }
    out.append("}");
    proof {
        reveal_strlit("{");
        reveal_strlit("}");
        if body@.len() > 0 {
            assert(body@.subrange(0, blen - 1) =~= body@.drop_last());
        }
        assert(out@ =~= spec_assemble(spec_fragment(pl, name@, code@)));
        lemma_chunked_is_rectified(dump@, name@, code@, workers as int);
    }
    out
}

/// Rectifies a raw dump against a registry entry and validates the result by
/// parsing it as JSON; a text that fails validation is never returned.
pub fn rectify(dump: &str, entry: &OfflineDict, workers: usize) -> (r: Result<
    String,
    RectifyError,
>)
    requires
        1 <= workers,
    ensures
        match r {
            Ok(text) => text@ == spec_rectified(dump@, entry.name@, entry.code@)
                && json_dict_entries(text@) is Some,
            Err(e) => e is Malformed && json_dict_entries(
                spec_rectified(dump@, entry.name@, entry.code@),
            ) is None,
        },
{
    let text = rectify_text(dump, entry.name.as_str(), entry.code.as_str(), workers);
    match parse_dict_entries(text.as_str()) {
        Some(_) => Ok(text),
        None => Err(RectifyError::Malformed),
    }
}

} // verus!
