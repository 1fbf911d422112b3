//! The search service: splits a file into lines, runs the matcher on each
//! line in order, converts matches into display records, and stops at the
//! result cap.
use vstd::prelude::*;

verus! {

broadcast use vstd::seq::group_seq_axioms;

use vstd::string::StrSliceExecFns;
use crate::SearchMatch;
use crate::engine::{Matcher, line_spans, matcher_spans_ok, scan_line, spans_in_range};
use crate::strs::{crop, truncate_chars};

/// The most matches one search request reports; protects the consumer
/// from being flooded on a low-selectivity query.
pub const MAX_RESULTS: usize = 1000;

/// The most characters of a line kept for display.
pub const MAX_LINE_CHARS: usize = 500;

/// A line with one trailing carriage return removed.
pub open spec fn strip_cr(l: Seq<char>) -> Seq<char> {
    if l.len() > 0 && l[l.len() - 1] == '\r' {
        l.drop_last()
    } else {
        l
    }
}

/// The lines of `s` from position `i` on, the current line having started
/// at `start`: split at every newline, each newline-terminated line
/// stripped of one trailing carriage return, a final line ending yielding
/// no extra empty line, and a last line without a newline kept whole (a
/// carriage return there is not part of a line ending).
pub open spec fn lines_from(s: Seq<char>, start: int, i: int) -> Seq<Seq<char>>
    decreases s.len() - i,
    when 0 <= start <= i <= s.len()
{
    if i == s.len() {
        if start == i {
            seq![]
        } else {
            seq![s.subrange(start, i)]
        }
    } else if s[i] == '\n' {
        seq![strip_cr(s.subrange(start, i))] + lines_from(s, i + 1, i + 1)
    } else {
        lines_from(s, start, i + 1)
    }
}

/// The lines of a file's text.
pub open spec fn lines_of(s: Seq<char>) -> Seq<Seq<char>> {
    lines_from(s, 0, 0)
}

/// One line of `content` between character positions `start` and `i`,
/// stripped of a trailing carriage return.
fn make_line(content: &str, start: usize, i: usize) -> (r: String)
    requires
        start <= i <= content@.len(),
    ensures
        r@ == strip_cr(content@.subrange(start as int, i as int)),
{
    if i > start && content.get_char(i - 1) == '\r' {
        let piece = content.substring_char(start, i - 1);
        proof {
            assert(content@.subrange(start as int, i - 1) =~= strip_cr(
                content@.subrange(start as int, i as int),
            ));
        }
        piece.to_owned()
    } else {
        let piece = content.substring_char(start, i);
        piece.to_owned()
    }
}

/// Splits a file's text into lines, as `lines_of` describes.
pub fn split_lines(content: &str) -> (r: Vec<String>)
    ensures
        r@.len() == lines_of(content@).len(),
        forall|k: int| 0 <= k < r@.len() ==> (#[trigger] r@[k])@ == lines_of(content@)[k],
{
    let n = content.unicode_len();
    let mut r: Vec<String> = Vec::new();
    let ghost done: Seq<Seq<char>> = Seq::empty();
    let mut start: usize = 0;
    let mut i: usize = 0;
    while i < n
        invariant
            n == content@.len(),
            start <= i <= n,
            lines_of(content@) == done + lines_from(content@, start as int, i as int),
            r@.len() == done.len(),
            forall|k: int| 0 <= k < r@.len() ==> (#[trigger] r@[k])@ == done[k],
        decreases n - i,
    {
        if content.get_char(i) == '\n' {
            let piece = make_line(content, start, i);
            r.push(piece);
            proof {
                let line = strip_cr(content@.subrange(start as int, i as int));
                assert(lines_from(content@, start as int, i as int) == seq![line] + lines_from(
                    content@,
                    i + 1,
                    i + 1,
                ));
                assert(done + (seq![line] + lines_from(content@, i + 1, i + 1)) =~= (done
                    + seq![line]) + lines_from(content@, i + 1, i + 1));
                done = done + seq![line];
            }
            start = i + 1;
        }
        i = i + 1;
    }
    if start < n {
        let piece = content.substring_char(start, n);
        r.push(piece.to_owned());
        proof {
            let line = content@.subrange(start as int, n as int);
            assert(lines_from(content@, start as int, n as int) == seq![line]);
            assert(done + seq![line] =~= lines_of(content@));
            done = done + seq![line];
        }
    } else {
        proof {
            assert(lines_from(content@, start as int, n as int) == Seq::<Seq<char>>::empty());
            assert(done + Seq::<Seq<char>>::empty() =~= done);
            assert(lines_of(content@) =~= done);
        }
    }
    r
}

/// The tags of the strict spans of `sp` from index `j` on: each match
/// that covers at least one character, tagged with the 0-based line
/// index `i`; zero-width spans are passed over.
pub open spec fn strict_tags(sp: Seq<(int, int)>, i: int, j: int) -> Seq<(int, int, int)>
    decreases sp.len() - j,
    when j >= 0
{
    if j >= sp.len() {
        seq![]
    } else if sp[j].0 < sp[j].1 {
        seq![(i, sp[j].0, sp[j].1)] + strict_tags(sp, i, j + 1)
    } else {
        strict_tags(sp, i, j + 1)
    }
}

/// The reportable matches of `m` in one line: the strict spans, tagged
/// with the 0-based line index.
pub open spec fn tag_line(m: Matcher, line: Seq<char>, i: int) -> Seq<(int, int, int)> {
    strict_tags(line_spans(m, line), i, 0)
}

/// Every reportable match of `m` in lines `i..` of the file, in file
/// order: by line, then left to right within the line.
pub open spec fn file_spans(m: Matcher, ls: Seq<Seq<char>>, i: int) -> Seq<(int, int, int)>
    decreases ls.len() - i,
    when i >= 0
{
    if i >= ls.len() {
        seq![]
    } else {
        tag_line(m, ls[i], i) + file_spans(m, ls, i + 1)
    }
}

/// The fields every reported record carries: the file's path and name, a
/// 1-based line number, the line cut to the display cap, and a strictly
/// ordered match span that stays within the full line.
pub open spec fn record_fields_ok(
    rec: SearchMatch,
    fp: Seq<char>,
    fnm: Seq<char>,
    ls: Seq<Seq<char>>,
) -> bool {
    &&& rec.file_path@ == fp
    &&& rec.file_name@ == fnm
    &&& 1 <= rec.line_number <= ls.len()
    &&& rec.line_content@ == crop(ls[rec.line_number - 1], MAX_LINE_CHARS as int)
    &&& rec.line_content@.len() <= MAX_LINE_CHARS
    &&& rec.match_start < rec.match_end <= ls[rec.line_number - 1].len()
}

/// The record reports exactly the tagged span `t`.
pub open spec fn record_is(rec: SearchMatch, t: (int, int, int)) -> bool {
    &&& rec.line_number == t.0 + 1
    &&& rec.match_start == t.1
    &&& rec.match_end == t.2
}

/// Scans one file's text and appends a record for every match that
/// covers at least one character, in file order, until the result cap is
/// reached: the records appended are exactly the matcher's strict
/// matches over the file's lines, cut to the room the cap leaves. A
/// zero-width match (possible only for a regex that accepts the empty
/// string, or under the case-folding misalignment) reports no record, so
/// every record's span is strict.
pub fn search_file(
    results: &mut Vec<SearchMatch>,
    m: &Matcher,
    file_path: &str,
    file_name: &str,
    content: &str,
)
    requires
        old(results)@.len() <= MAX_RESULTS,
        m.wf(),
        crate::strs::ends_with(file_path@, file_name@),
    ensures
        final(results)@.len() <= MAX_RESULTS,
        old(results)@.len() <= final(results)@.len(),
        final(results)@.subrange(0, old(results)@.len() as int) == old(results)@,
        forall|t: int|
            old(results)@.len() <= t < final(results)@.len() ==> record_fields_ok(
                #[trigger] final(results)@[t],
                file_path@,
                file_name@,
                lines_of(content@),
            ),
        ({
            let all = file_spans(*m, lines_of(content@), 0);
            let room = MAX_RESULTS - old(results)@.len();
            &&& final(results)@.len() - old(results)@.len() == (if all.len() <= room {
                all.len() as int
            } else {
                room as int
            })
            &&& forall|k: int|
                0 <= k < final(results)@.len() - old(results)@.len() ==> record_is(
                    #[trigger] final(results)@[old(results)@.len() + k],
                    all[k],
                )
        }),
{
    let lines = split_lines(content);
    let ghost ls = lines_of(content@);
    let ghost old_len = old(results)@.len() as int;
    let ghost all = file_spans(*m, ls, 0);
    let n = lines.len();
    let mut i: usize = 0;
    while i < n && results.len() < MAX_RESULTS
        invariant
            n == lines@.len(),
            lines@.len() == ls.len(),
            forall|k: int| 0 <= k < lines@.len() ==> (#[trigger] lines@[k])@ == ls[k],
            i <= n,
            m.wf(),
            ls == lines_of(content@),
            old_len == old(results)@.len(),
            all == file_spans(*m, ls, 0),
            old_len <= results@.len() <= MAX_RESULTS,
            results@.subrange(0, old_len) == old(results)@,
            forall|t: int|
                old_len <= t < results@.len() ==> record_fields_ok(
                    #[trigger] results@[t],
                    file_path@,
                    file_name@,
                    ls,
                ),
            results@.len() - old_len <= all.len(),
            forall|k: int|
                0 <= k < results@.len() - old_len ==> record_is(
                    #[trigger] results@[old_len + k],
                    all[k],
                ),
            results@.len() < MAX_RESULTS ==> all.skip(results@.len() - old_len) == file_spans(
                *m,
                ls,
                i as int,
            ),
        decreases n - i,
    {
        let line = &lines[i];
        let spans = scan_line(m, line.as_str());
        let display = truncate_chars(line.as_str(), MAX_LINE_CHARS);
        proof {
            assert(display@ == crop(ls[i as int], MAX_LINE_CHARS as int));
        }
        let ghost sp = line_spans(*m, ls[i as int]);
        proof {
            assert(file_spans(*m, ls, i as int) == strict_tags(sp, i as int, 0) + file_spans(
                *m,
                ls,
                i + 1,
            ));
            assert(spans@.len() == sp.len());
        }
        let mut j: usize = 0;
        while j < spans.len() && results.len() < MAX_RESULTS
            invariant
                n == lines@.len(),
                lines@.len() == ls.len(),
                forall|k: int| 0 <= k < lines@.len() ==> (#[trigger] lines@[k])@ == ls[k],
                i < n,
                j <= spans@.len(),
                m.wf(),
                ls == lines_of(content@),
                old_len == old(results)@.len(),
                all == file_spans(*m, ls, 0),
                old_len <= results@.len() <= MAX_RESULTS,
                results@.subrange(0, old_len) == old(results)@,
                matcher_spans_ok(*m, ls[i as int], spans@),
                spans_in_range(ls[i as int], spans@),
                sp == line_spans(*m, ls[i as int]),
                spans@.len() == sp.len(),
                display@ == crop(ls[i as int], MAX_LINE_CHARS as int),
                forall|t: int|
                    old_len <= t < results@.len() ==> record_fields_ok(
                        #[trigger] results@[t],
                        file_path@,
                        file_name@,
                        ls,
                    ),
                results@.len() - old_len <= all.len(),
                forall|k: int|
                    0 <= k < results@.len() - old_len ==> record_is(
                        #[trigger] results@[old_len + k],
                        all[k],
                    ),
                results@.len() < MAX_RESULTS ==> all.skip(results@.len() - old_len) == strict_tags(
                    sp,
                    i as int,
                    j as int,
                ) + file_spans(*m, ls, i + 1),
            decreases spans@.len() - j,
        {
            let (a, b) = (spans[j].0, spans[j].1);
            proof {
                assert(sp[j as int].0 == a && sp[j as int].1 == b);
            }
            if a < b {
                let rec = SearchMatch {
                    file_path: file_path.to_owned(),
                    file_name: file_name.to_owned(),
                    line_number: i + 1,
                    line_content: display.clone(),
                    match_start: a,
                    match_end: b,
                };
                let ghost prev = results@;
                let ghost donep = results@.len() - old_len;
                proof {
                    assert(rec.line_number - 1 == i as int);
                    assert(rec.line_content@ == crop(ls[i as int], MAX_LINE_CHARS as int));
                    assert(record_fields_ok(rec, file_path@, file_name@, ls));
                    let x = (i as int, a as int, b as int);
                    let rest2 = strict_tags(sp, i as int, j + 1) + file_spans(*m, ls, i + 1);
                    assert(strict_tags(sp, i as int, j as int) == seq![x] + strict_tags(
                        sp,
                        i as int,
                        j + 1,
                    ));
                    assert(all.skip(donep) =~= seq![x] + rest2);
                    assert(all.skip(donep).len() > 0);
                    assert(donep < all.len());
                    assert(all.skip(donep)[0] == all[donep]);
                    assert((seq![x] + rest2)[0] == x);
                    assert(record_is(rec, all[donep]));
                    assert forall|t: int| 0 <= t < all.len() - (donep + 1) implies #[trigger] all.skip(
                        donep + 1,
                    )[t] == rest2[t] by {
                        assert(all.skip(donep)[t + 1] == (seq![x] + rest2)[t + 1]);
                        assert(all.skip(donep)[t + 1] == all[donep + 1 + t]);
                        assert(all.skip(donep + 1)[t] == all[donep + 1 + t]);
                        assert((seq![x] + rest2)[t + 1] == rest2[t]);
                    }
                    assert(all.skip(donep + 1) =~= rest2);
                }
                results.push(rec);
                proof {
                    assert(results@ == prev.push(rec));
                    assert(results@.subrange(0, old_len) =~= old(results)@);
                    assert forall|t: int|
                        old_len <= t < results@.len() implies record_fields_ok(
                        #[trigger] results@[t],
                        file_path@,
                        file_name@,
                        ls,
                    ) by {
                        if t < prev.len() {
                            assert(results@[t] == prev[t]);
                        } else {
                            assert(results@[t] == rec);
                        }
                    }
                    assert forall|k: int|
                        0 <= k < results@.len() - old_len implies record_is(
                        #[trigger] results@[old_len + k],
                        all[k],
                    ) by {
                        if k < donep {
                            assert(results@[old_len + k] == prev[old_len + k]);
                        } else {
                            assert(results@[old_len + k] == rec);
                            assert(k == donep);
                        }
                    }
                }
            } else {
                proof {
                    assert(strict_tags(sp, i as int, j as int) == strict_tags(sp, i as int, j + 1));
                }
            }
            j = j + 1;
        }
        proof {
            if results@.len() < MAX_RESULTS {
                assert(j == spans@.len());
                assert(strict_tags(sp, i as int, j as int) == Seq::<(int, int, int)>::empty());
                assert(strict_tags(sp, i as int, j as int) + file_spans(*m, ls, i + 1)
                    =~= file_spans(*m, ls, i + 1));
            }
        }
        i = i + 1;
    }
    proof {
        let donep = results@.len() - old_len;
        let room = MAX_RESULTS - old_len;
        if results@.len() < MAX_RESULTS {
            assert(i == n);
            assert(all.skip(donep) == file_spans(*m, ls, ls.len() as int));
            assert(file_spans(*m, ls, ls.len() as int) == Seq::<(int, int, int)>::empty());
            assert(all.skip(donep).len() == 0);
            assert(donep == all.len());
        } else {
            assert(donep == room);
            assert(donep <= all.len());
        }
    }
}

} // verus!
