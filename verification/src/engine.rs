//! The match engine: a matcher built once per request, either a plain
//! byte-substring scanner (optionally case-folded) or a compiled regular
//! expression, producing per-line character spans for highlighting.
use vstd::prelude::*;

verus! {

broadcast use vstd::seq::group_seq_axioms;

use vstd::utf8::encode_utf8;
use vstd::string::{StrSliceExecFns, StringExecFns};
use crate::sys::{
    lower_of, lowercase, regex_compile, regex_compiles, regex_error_message, regex_find_spans,
    regex_spans_of, CompiledPattern,
};
use crate::text::{
    chars_before, match_positions, find_all_plain, chars_before_exec, lemma_chars_before_mono,
    lemma_chars_before_le_total, lemma_chars_before_total, lemma_encode_nonempty,
};

/// How lines are scanned: a plain needle (the query's bytes, lowercased
/// when folding case) or a compiled pattern.
pub enum Matcher {
    Plain { query: Vec<u8>, fold: bool },
    Pattern { re: CompiledPattern },
}

impl Matcher {
    /// A plain matcher always carries a nonempty needle; the search
    /// rejects empty queries before one is built.
    pub open spec fn wf(self) -> bool {
        match self {
            Matcher::Plain { query, fold } => query@.len() >= 1,
            Matcher::Pattern { .. } => true,
        }
    }
}

/// The matcher `m` is the plain matcher that `query` and `case_sensitive`
/// call for: the needle is the query's encoding, lowercased first when the
/// comparison folds case.
pub open spec fn plain_matcher_is(m: Matcher, q: Seq<char>, case_sensitive: bool) -> bool {
    m matches Matcher::Plain { query, fold } && fold == !case_sensitive && query@ == (
    if case_sensitive {
        encode_utf8(q)
    } else {
        encode_utf8(lower_of(q))
    })
}

/// The pattern text a regex request compiles: the query itself, or the
/// query behind the case-insensitive modifier.
pub open spec fn eff_pattern(q: Seq<char>, case_sensitive: bool) -> Seq<char> {
    if case_sensitive {
        q
    } else {
        "(?i)"@ + q
    }
}

/// The matcher `m` is the pattern matcher that `query` and
/// `case_sensitive` call for.
pub open spec fn pattern_matcher_is(m: Matcher, q: Seq<char>, case_sensitive: bool) -> bool {
    m matches Matcher::Pattern { re } && re.pat_view() == eff_pattern(q, case_sensitive)
}

/// The character spans the matcher reports for one line. For the plain
/// engine: the greedy non-overlapping occurrences of the needle in the
/// scanned bytes (the line itself, or its lowercased form when folding).
/// For a pattern: the regex engine's matches for the stored pattern text.
/// Either way each byte span is converted to character offsets counted
/// against the original line's bytes.
pub open spec fn line_spans(m: Matcher, line: Seq<char>) -> Seq<(int, int)> {
    let ob = encode_utf8(line);
    match m {
        Matcher::Plain { query, fold } => {
            let sb = if fold {
                encode_utf8(lower_of(line))
            } else {
                ob
            };
            let ps = match_positions(sb, query@, 0);
            Seq::new(
                ps.len(),
                |k: int| (chars_before(ob, ps[k]), chars_before(ob, ps[k] + query@.len())),
            )
        },
        Matcher::Pattern { re } => {
            let raw = regex_spans_of(re.pat_view(), line);
            Seq::new(
                raw.len(),
                |k: int| (chars_before(ob, raw[k].0 as int), chars_before(ob, raw[k].1 as int)),
            )
        },
    }
}

/// The reported spans are exactly the matcher's spans for this line.
pub open spec fn matcher_spans_ok(m: Matcher, line: Seq<char>, spans: Seq<(usize, usize)>) -> bool {
    &&& spans.len() == line_spans(m, line).len()
    &&& forall|k: int|
        0 <= k < spans.len() ==> (#[trigger] spans[k]).0 == line_spans(m, line)[k].0 && spans[k].1
            == line_spans(m, line)[k].1
}

/// Every span is ordered and stays within the line's character length.
pub open spec fn spans_in_range(line: Seq<char>, spans: Seq<(usize, usize)>) -> bool {
    forall|k: int| 0 <= k < spans.len() ==> (#[trigger] spans[k]).0 <= spans[k].1 <= line.len()
}

/// A zero-width reported span comes only from a zero-width regex match:
/// a match that covers at least one byte covers at least one character.
pub open spec fn pattern_spans_strict(
    pat: Seq<char>,
    line: Seq<char>,
    spans: Seq<(usize, usize)>,
) -> bool {
    let raw = regex_spans_of(pat, line);
    forall|k: int|
        0 <= k < spans.len() ==> ((#[trigger] spans[k]).0 == spans[k].1 ==> raw[k].0 == raw[k].1)
}

/// All matches of `m` in one line, as character spans.
pub fn scan_line(m: &Matcher, line: &str) -> (r: Vec<(usize, usize)>)
    requires
        m.wf(),
    ensures
        matcher_spans_ok(*m, line@, r@),
        spans_in_range(line@, r@),
        *m matches Matcher::Pattern { re } ==> pattern_spans_strict(re.pat_view(), line@, r@),
{
    match m {
        Matcher::Plain { query, fold } => {
            let ob = line.as_bytes();
            let r = if *fold {
                let low = lowercase(line);
                let sb = low.as_str().as_bytes();
                find_all_plain(ob, sb, query.as_slice())
            } else {
                find_all_plain(ob, ob, query.as_slice())
            };
            proof {
                lemma_chars_before_total(line@);
                let ps = match_positions(
                    if *fold {
                        encode_utf8(lower_of(line@))
                    } else {
                        encode_utf8(line@)
                    },
                    query@,
                    0,
                );
                assert forall|k: int| 0 <= k < r@.len() implies (#[trigger] r@[k]).0 == line_spans(
                    *m,
                    line@,
                )[k].0 && r@[k].1 == line_spans(*m, line@)[k].1 && r@[k].0 <= r@[k].1
                    <= line@.len() by {
                    lemma_chars_before_mono(ob@, ps[k], ps[k] + query@.len());
                    lemma_chars_before_le_total(ob@, ps[k] + query@.len());
                }
            }
            r
        },
        Matcher::Pattern { re } => {
            let raw = regex_find_spans(re, line);
            let ob = line.as_bytes();
            let mut r: Vec<(usize, usize)> = Vec::new();
            let mut k: usize = 0;
            proof {
                lemma_chars_before_total(line@);
            }
            while k < raw.len()
                invariant
                    k <= raw@.len(),
                    r@.len() == k,
                    ob@ == encode_utf8(line@),
                    chars_before(ob@, ob@.len() as int) == line@.len(),
                    raw@ == regex_spans_of(re.pat_view(), line@),
                    forall|t: int|
                        0 <= t < raw@.len() ==> (#[trigger] raw@[t]).0 <= raw@[t].1
                            <= encode_utf8(line@).len(),
                    forall|t: int|
                        0 <= t < raw@.len() ==> vstd::utf8::is_char_boundary(
                            encode_utf8(line@),
                            (#[trigger] raw@[t]).0 as int,
                        ),
                    forall|t: int|
                        0 <= t < r@.len() ==> (#[trigger] r@[t]).0 == chars_before(
                            ob@,
                            raw@[t].0 as int,
                        ) && r@[t].1 == chars_before(ob@, raw@[t].1 as int),
                    forall|t: int|
                        0 <= t < r@.len() ==> ((#[trigger] r@[t]).0 == r@[t].1 ==> raw@[t].0
                            == raw@[t].1),
                    spans_in_range(line@, r@),
                decreases raw@.len() - k,
            {
                let (a, b) = (raw[k].0, raw[k].1);
                let ca = chars_before_exec(ob, a);
                let cb = chars_before_exec(ob, b);
                proof {
                    lemma_chars_before_mono(ob@, a as int, b as int);
                    lemma_chars_before_le_total(ob@, b as int);
                    if a < b {
                        assert(b <= ob@.len());
                        vstd::utf8::encode_utf8_valid_utf8(line@);
                        vstd::utf8::is_char_boundary_iff_not_is_continuation_byte(ob@, a as int);
                        crate::text::lemma_chars_before_step(ob@, a as int);
                        lemma_chars_before_mono(ob@, a + 1, b as int);
                    }
                }
                r.push((ca, cb));
                k = k + 1;
            }
            proof {
                assert forall|t: int| 0 <= t < r@.len() implies (#[trigger] r@[t]).0 == line_spans(
                    *m,
                    line@,
                )[t].0 && r@[t].1 == line_spans(*m, line@)[t].1 by {}
            }
            r
        },
    }
}

/// Builds the matcher the flags call for. A plain matcher always comes
/// back; a pattern builds exactly when the regex engine accepts the
/// pattern text, and otherwise the error carries the engine's diagnostic.
pub fn build_matcher(query: &str, case_sensitive: bool, use_regex: bool) -> (r: Result<
    Matcher,
    String,
>)
    requires
        query@.len() > 0,
    ensures
        !use_regex ==> r is Ok,
        use_regex ==> (r is Ok <==> regex_compiles(eff_pattern(query@, case_sensitive))),
        r matches Ok(m) ==> m.wf(),
        r matches Ok(m) ==> ((m matches Matcher::Pattern { .. }) <==> use_regex),
        !use_regex ==> (r matches Ok(m) ==> plain_matcher_is(m, query@, case_sensitive)),
        use_regex ==> (r matches Ok(m) ==> pattern_matcher_is(m, query@, case_sensitive)),
        r matches Err(e) ==> use_regex && e@.len() > 0,
{
    if use_regex {
        let pat: String = if case_sensitive {
            query.to_owned()
        } else {
            String::from_str("(?i)").concat(query)
        };
        match regex_compile(pat.as_str()) {
            Ok(re) => Ok(Matcher::Pattern { re }),
            Err(e) => Err(regex_error_message(&e)),
        }
    } else {
        let needle: Vec<u8> = if case_sensitive {
            proof {
                lemma_encode_nonempty(query@);
            }
            query.as_bytes_vec()
        } else {
            let low = lowercase(query);
            proof {
                lemma_encode_nonempty(lower_of(query@));
            }
            low.as_str().as_bytes_vec()
        };
        Ok(Matcher::Plain { query: needle, fold: !case_sensitive })
    }
}

/// What one search request does before any file is read: an empty query
/// or an absent root short-circuits to an empty result, anything else
/// runs a matcher over the tree.
pub enum SearchPlan {
    Empty,
    Run(Matcher),
}

/// Decides a search request from the query, the flags, and whether the
/// root is a directory. An empty query yields `Empty` before anything
/// else, and so does an absent root, so the caller returns no results
/// without reading a file; only then is the matcher built, and the
/// request fails exactly when regex mode is on and the pattern does not
/// compile — no other condition is an error.
pub fn prepare_search(query: &str, case_sensitive: bool, use_regex: bool, root_is_dir: bool) -> (r:
    Result<SearchPlan, String>)
    ensures
        query@.len() == 0 ==> (r matches Ok(p) ==> p matches SearchPlan::Empty) && r is Ok,
        !root_is_dir ==> (r matches Ok(p) ==> p matches SearchPlan::Empty) && r is Ok,
        r matches Ok(p) ==> (p matches SearchPlan::Run(m) ==> {
            &&& m.wf()
            &&& query@.len() > 0
            &&& root_is_dir
            &&& ((m matches Matcher::Pattern { .. }) <==> use_regex)
            &&& (!use_regex ==> plain_matcher_is(m, query@, case_sensitive))
            &&& (use_regex ==> pattern_matcher_is(m, query@, case_sensitive))
        }),
        query@.len() > 0 && root_is_dir ==> (r matches Ok(p) ==> p matches SearchPlan::Run(_)),
        r is Err <==> query@.len() > 0 && root_is_dir && use_regex && !regex_compiles(
            eff_pattern(query@, case_sensitive),
        ),
        r matches Err(e) ==> e@.len() > 0,
{
    if query.is_empty() {
        Ok(SearchPlan::Empty)
    } else if !root_is_dir {
        Ok(SearchPlan::Empty)
    } else {
        match build_matcher(query, case_sensitive, use_regex) {
            Ok(m) => Ok(SearchPlan::Run(m)),
            Err(e) => Err(e),
        }
    }
}

/// For a case-sensitive plain search every reported match covers at least
/// one character and ends within the line: the spans are strictly ordered
/// inside the line's character length.
pub proof fn lemma_plain_sensitive_spans_strict(
    m: Matcher,
    q: Seq<char>,
    line: Seq<char>,
    spans: Seq<(usize, usize)>,
)
    requires
        plain_matcher_is(m, q, true),
        q.len() > 0,
        matcher_spans_ok(m, line, spans),
    ensures
        forall|k: int| 0 <= k < spans.len() ==> (#[trigger] spans[k]).0 < spans[k].1 <= line.len(),
{
    let ob = encode_utf8(line);
    let needle = encode_utf8(q);
    let ps = crate::text::match_positions(ob, needle, 0);
    lemma_encode_nonempty(q);
    crate::text::lemma_positions_sound(ob, needle, 0);
    lemma_chars_before_total(line);
    assert forall|k: int| 0 <= k < spans.len() implies (#[trigger] spans[k]).0 < spans[k].1
        <= line.len() by {
        let p = ps[k];
        assert(line_spans(m, line)[k] == (chars_before(ob, p), chars_before(ob, p + needle.len())));
        assert(crate::text::is_match_at(ob, needle, p));
        assert(ob.subrange(p, p + needle.len())[0] == ob[p]);
        assert(ob[p] == needle[0]);
        crate::text::lemma_chars_before_step(ob, p);
        lemma_chars_before_mono(ob, p + 1, p + needle.len());
        lemma_chars_before_le_total(ob, p + needle.len());
    }
}

} // verus!
