//! The compute side of the online translators: query normalization and the
//! parsing of a fetched sentence-dictionary page. Fetching the pages is
//! I/O and stays with the caller.
use crate::rectify::has_pat_at;
use crate::textnorm::{lower_of, normalize_word, trim_text, trimmed_of};
use vstd::prelude::*;

verus! {

/// Index of the first occurrence of `pat` in `s` at or after `from`, or
/// `s.len()` when there is none.
pub open spec fn find_sub(s: Seq<char>, pat: Seq<char>, from: int) -> int
    decreases s.len() - from,
{
    if from < 0 || from >= s.len() || from + pat.len() > s.len() {
        s.len() as int
    } else if s.subrange(from, from + pat.len()) == pat {
        from
    } else {
        find_sub(s, pat, from + 1)
    }
}

/// A position where scanning stopped — no occurrence before it, an
/// occurrence at it or no room left for one — pins down `find_sub`.
proof fn lemma_find_sub_at(s: Seq<char>, pat: Seq<char>, from: int, i: int)
    requires
        0 <= from <= i <= s.len(),
        forall|j: int| #![trigger s.subrange(j, j + pat.len() as int)]
            from <= j < i ==> !(j + pat.len() <= s.len() && s.subrange(j, j + pat.len() as int)
                == pat),
        (i + pat.len() <= s.len() && s.subrange(i, i + pat.len() as int) == pat) || i + pat.len()
            > s.len(),
    ensures
        i + pat.len() <= s.len() ==> find_sub(s, pat, from) == i,
        i + pat.len() > s.len() ==> find_sub(s, pat, from) == s.len(),
    decreases i - from,
{
    if from < i {
        lemma_find_sub_at(s, pat, from + 1, i);
    }
}

/// First occurrence of `pat` in `s` at or after `from`, or the length of
/// `s` when there is none.
fn find_substr(s: &str, pat: &str, from: usize) -> (r: usize)
    requires
        from as int <= s@.len(),
        pat@.len() >= 1,
    ensures
        r == find_sub(s@, pat@, from as int),
        from <= r,
        r as int <= s@.len(),
{
    let n = s.unicode_len();
    let pl = pat.unicode_len();
    if pl > n || from > n - pl {
        proof {
            lemma_find_sub_at(s@, pat@, from as int, from as int);
        }
        return n;
    }
    let mut j = from;
    while j <= n - pl
        invariant
            from <= j <= n - pl + 1,
            pl >= 1,
            pl <= n,
            n == s@.len(),
            pl == pat@.len(),
            forall|k: int| #![trigger s@.subrange(k, k + pat@.len() as int)]
                from <= k < j ==> !(k + pat@.len() <= s@.len() && s@.subrange(
                    k,
                    k + pat@.len() as int,
                ) == pat@),
        decreases n - j,
    {
        if has_pat_at(s, j, n, pat) {
            proof {
                lemma_find_sub_at(s@, pat@, from as int, j as int);
            }
            return j;
        }
        j += 1;
    }
    proof {
        lemma_find_sub_at(s@, pat@, from as int, j as int);
    }
    n
}

/// The section markers around usable content in a fetched
/// sentence-dictionary page.
pub open spec fn section_start_marker() -> Seq<char> {
    "<!--\u{6700}\u{5927}\u{9ad8}\u{5ea6}\u{4e3a}105px,\u{80fd}\u{663e}\u{793a}5\u{884c}\u{591a}\u{7684}\u{6837}\u{5b50}-->"@
}

pub open spec fn section_end_marker() -> Seq<char> {
    "<!--all\u{7ed3}\u{675f}-->"@
}

/// The usable section of a fetched page: what stands between the first and
/// the second start marker (or the page's end), cut at the end marker.
pub open spec fn spec_sentencedict_section(body: Seq<char>) -> Seq<char> {
    let m1 = section_start_marker();
    let m2 = section_end_marker();
    let i = find_sub(body, m1, 0);
    if i + m1.len() > body.len() {
        Seq::empty()
    } else {
        let start = i + m1.len();
        let j = find_sub(body, m1, start);
        let seg_end = if j + m1.len() <= body.len() {
            j
        } else {
            body.len() as int
        };
        let seg = body.subrange(start, seg_end);
        let k = find_sub(seg, m2, 0);
        if k + m2.len() <= seg.len() {
            seg.subrange(0, k)
        } else {
            seg
        }
    }
}

/// Parses a fetched sentence-dictionary page: the example-sentence section,
/// trimmed; an empty text when the page has none.
pub fn parse_sentencedict_resp(body: &str) -> (r: String)
    ensures
        r@ == trimmed_of(spec_sentencedict_section(body@)),
{
    let m1 =
        "<!--\u{6700}\u{5927}\u{9ad8}\u{5ea6}\u{4e3a}105px,\u{80fd}\u{663e}\u{793a}5\u{884c}\u{591a}\u{7684}\u{6837}\u{5b50}-->";
    let m2 = "<!--all\u{7ed3}\u{675f}-->";
    proof {
        reveal_strlit(
            "<!--\u{6700}\u{5927}\u{9ad8}\u{5ea6}\u{4e3a}105px,\u{80fd}\u{663e}\u{793a}5\u{884c}\u{591a}\u{7684}\u{6837}\u{5b50}-->",
        );
        reveal_strlit("<!--all\u{7ed3}\u{675f}-->");
    }
    let n = body.unicode_len();
    let m1l = m1.unicode_len();
    let m2l = m2.unicode_len();
    let i = find_substr(body, m1, 0);
    if m1l > n || i > n - m1l {
        let empty = String::new();
        return trim_text(empty.as_str());
    }
    let start = i + m1l;
    let j = find_substr(body, m1, start);
    let seg_end = if j <= n - m1l {
        j
    } else {
        n
    };
    let seg = body.substring_char(start, seg_end);
    let seglen = seg.unicode_len();
    let k = find_substr(seg, m2, 0);
    let part = if k <= seglen && m2l <= seglen && k <= seglen - m2l {
        seg.substring_char(0, k)
    } else {
        seg
    };
    trim_text(part)
}

/// Picks example sentences for a single word out of a fetched page; a
/// multi-word query is answered with an empty text without a fetch.
pub struct OtherTranslator {}

/// Whether a character occurs in a text.
fn contains_char(s: &str, c: char) -> (r: bool)
    ensures
        r == s@.contains(c),
{
    let n = s.unicode_len();
    let mut i: usize = 0;
    while i < n
        invariant
            i <= n,
            n == s@.len(),
            forall|j: int| 0 <= j < i ==> s@[j] != c,
        decreases n - i,
    {
        if s.get_char(i) == c {
            return true;
        }
        i += 1;
    }
    false
}

impl OtherTranslator {
    /// The sentence-dictionary result for a query: nothing for a multi-word
    /// query, else the parsed section of the fetched page.
    pub fn sentencedict_translate(text: &str, page: &str) -> (r: String)
        ensures
            r@ == if text@.contains(' ') {
                Seq::<char>::empty()
            } else {
                trimmed_of(spec_sentencedict_section(page@))
            },
    {
        if contains_char(text, ' ') {
            String::new()
        } else {
            parse_sentencedict_resp(page)
        }
    }
}

/// A translation request between two languages; its query is normalized —
/// trimmed and lowercased — before any service is asked.
pub struct OnlineTranslator {
    pub to: String,
    pub from: String,
}

impl OnlineTranslator {
    /// The query as every service receives it.
    pub fn normalized_query(&self, text: &str) -> (r: String)
        ensures
            r@ == lower_of(trimmed_of(text@)),
    {
        normalize_word(text)
    }
}

} // verus!
