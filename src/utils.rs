//! Splitting text into lines, literal substring matching, counting and
//! formatting matches.
use vstd::prelude::*;
use vstd::string::*;

use crate::error::{message_spec, GrepError};
use crate::text::{chars_of, decimal, decimal_string, paint, painted, string_of, Color};

verus! {

/// The pieces of `s` between newline characters: one more piece than `s`
/// has newlines.
pub open spec fn pieces(s: Seq<char>) -> Seq<Seq<char>>
    decreases s.len(),
{
    if s.len() == 0 {
        seq![Seq::empty()]
    } else {
        let p = pieces(s.drop_last());
        if s.last() == '\n' {
            p.push(Seq::empty())
        } else {
            p.update(p.len() - 1, p.last().push(s.last()))
        }
    }
}

/// A line ended by `\r\n` loses its `\r`.
pub open spec fn strip_cr(l: Seq<char>) -> Seq<char> {
    if l.len() > 0 && l.last() == '\r' {
        l.drop_last()
    } else {
        l
    }
}

/// The lines of `s`: every newline ends a line (a `\r` before it is
/// dropped), and text after the last newline is a final line if it is not
/// empty. The empty text has no lines.
pub open spec fn lines_of(s: Seq<char>) -> Seq<Seq<char>> {
    let p = pieces(s);
    let body = p.drop_last().map_values(|l: Seq<char>| strip_cr(l));
    if p.last().len() == 0 {
        body
    } else {
        body.push(p.last())
    }
}

/// `p` occurs in `t` starting at position `k`.
pub open spec fn occurs_at(t: Seq<char>, p: Seq<char>, k: int) -> bool {
    0 <= k && k + p.len() <= t.len() && t.subrange(k, k + p.len()) == p
}

/// `p` occurs in `t` as a contiguous run of characters.
pub open spec fn contains(t: Seq<char>, p: Seq<char>) -> bool {
    exists|k: int| occurs_at(t, p, k)
}

/// The number of lines of `ls` that contain `p`.
pub open spec fn count_matching(ls: Seq<Seq<char>>, p: Seq<char>) -> nat
    decreases ls.len(),
{
    if ls.len() == 0 {
        0
    } else {
        count_matching(ls.drop_last(), p) + if contains(ls.last(), p) {
            1nat
        } else {
            0nat
        }
    }
}

/// The lines of `ls` that contain `p`, each with its 1-based line number,
/// in order.
pub open spec fn matches_of(ls: Seq<Seq<char>>, p: Seq<char>) -> Seq<(nat, Seq<char>)>
    decreases ls.len(),
{
    if ls.len() == 0 {
        Seq::empty()
    } else {
        let prev = matches_of(ls.drop_last(), p);
        if contains(ls.last(), p) {
            prev.push((ls.len(), ls.last()))
        } else {
            prev
        }
    }
}

/// One line that contains the pattern.
pub struct MatchRecord {
    pub line_number: usize,
    pub text: String,
}

/// `recs` holds exactly the records of `m`, in order.
pub open spec fn records_are(recs: Seq<MatchRecord>, m: Seq<(nat, Seq<char>)>) -> bool {
    &&& recs.len() == m.len()
    &&& forall|i: int|
        0 <= i < m.len() ==> (#[trigger] recs[i]).line_number as nat == m[i].0 && recs[i].text@
            == m[i].1
}

/// The printed form of a match: the source path (when `with_path`), then the
/// line number (when `with_number`), each followed by a colon, then the text.
pub open spec fn format_spec(
    path: Seq<char>,
    number: nat,
    text: Seq<char>,
    with_number: bool,
    with_path: bool,
    colored: bool,
) -> Seq<char> {
    let pre = if with_path {
        painted(path, Color::Blue, colored).push(':')
    } else {
        Seq::empty()
    };
    let num = if with_number {
        painted(decimal(number), Color::Red, colored).push(':')
    } else {
        Seq::empty()
    };
    pre + num + text
}

/// `vs` holds, as character vectors, exactly the sequences of `ss`.
pub open spec fn char_rows(vs: Seq<Vec<char>>, ss: Seq<Seq<char>>) -> bool {
    vs.len() == ss.len() && forall|i: int| 0 <= i < ss.len() ==> (#[trigger] vs[i])@ == ss[i]
}

/// Splits text into its lines.
pub fn split_lines(cs: &Vec<char>) -> (r: Vec<Vec<char>>)
    ensures
        char_rows(r@, lines_of(cs@)),
{
    let mut done: Vec<Vec<char>> = Vec::new();
    let mut cur: Vec<char> = Vec::new();
    let mut i: usize = 0;
    proof {
        assert(cs@.subrange(0, 0) =~= Seq::<char>::empty());
    }
    while i < cs.len()
        invariant
            i <= cs@.len(),
            char_rows(done@, pieces(cs@.subrange(0, i as int)).drop_last().map_values(
                |l: Seq<char>| strip_cr(l),
            )),
            cur@ == pieces(cs@.subrange(0, i as int)).last(),
            pieces(cs@.subrange(0, i as int)).len() >= 1,
        decreases cs.len() - i,
    {
        let ghost pre = cs@.subrange(0, i as int);
        let ghost next = cs@.subrange(0, i + 1);
        proof {
            assert(next.drop_last() =~= pre);
            assert(next.last() == cs@[i as int]);
        }
        let c = cs[i];
        if c == '\n' {
            let n = cur.len();
            if n > 0 && cur[n - 1] == '\r' {
                cur.pop();
            }
            done.push(cur);
            cur = Vec::new();
            proof {
                assert(pieces(next) == pieces(pre).push(Seq::empty()));
                assert(pieces(next).drop_last() =~= pieces(pre));
                let m = pieces(pre).map_values(|l: Seq<char>| strip_cr(l));
                assert(m =~= pieces(pre).drop_last().map_values(|l: Seq<char>| strip_cr(l)).push(
                    strip_cr(pieces(pre).last()),
                ));
                assert(cur@ =~= pieces(next).last());
            }
        } else {
            cur.push(c);
            proof {
                assert(pieces(next).drop_last() =~= pieces(pre).drop_last());
            }
        }
        i = i + 1;
    }
    proof {
        assert(cs@.subrange(0, cs@.len() as int) =~= cs@);
    }
    if cur.len() > 0 {
        done.push(cur);
        proof {
            let p = pieces(cs@);
            assert(p =~= p.drop_last().push(p.last()));
        }
    }
    done
}

/// Whether `p` occurs in `t`.
pub fn contains_chars(t: &Vec<char>, p: &Vec<char>) -> (r: bool)
    ensures
        r == contains(t@, p@),
{
    if p.len() > t.len() {
        proof {
            assert forall|k: int| !occurs_at(t@, p@, k) by {}
        }
        return false;
    }
    if p.len() == 0 {
        proof {
            assert(t@.subrange(0, 0) =~= p@);
            assert(occurs_at(t@, p@, 0));
        }
        return true;
    }
    let last: usize = t.len() - p.len();
    let mut k: usize = 0;
    while k <= last
        invariant
            last == t@.len() - p@.len(),
            p@.len() >= 1,
            t@.len() <= usize::MAX,
            k <= last + 1,
            forall|k2: int| 0 <= k2 < k ==> !#[trigger] occurs_at(t@, p@, k2),
        decreases last + 1 - k,
    {
        let mut j: usize = 0;
        let mut same = true;
        while j < p.len()
            invariant
                k <= last,
                p@.len() >= 1,
                t@.len() <= usize::MAX,
                last == t@.len() - p@.len(),
                j <= p@.len(),
                same ==> forall|j2: int| 0 <= j2 < j ==> t@[k + j2] == p@[j2],
                !same ==> !occurs_at(t@, p@, k as int),
            decreases p.len() - j,
        {
            if t[k + j] != p[j] {
                if same {
                    proof {
                        if occurs_at(t@, p@, k as int) {
                            assert(t@.subrange(k as int, k + p@.len())[j as int] == t@[k + j]);
                        }
                    }
                }
                same = false;
            }
            j = j + 1;
        }
        if same {
            proof {
                assert(t@.subrange(k as int, k + p@.len()) =~= p@);
                assert(occurs_at(t@, p@, k as int));
            }
            return true;
        }
        k = k + 1;
    }
    proof {
        assert forall|k2: int| !occurs_at(t@, p@, k2) by {
            if 0 <= k2 && k2 + p@.len() <= t@.len() {
                assert(k2 < k);
            }
        }
    }
    false
}

/// Counts the lines of `contents` that contain `pattern`.
pub fn count_matches(contents: &String, pattern: &String) -> (r: usize)
    ensures
        r == count_matching(lines_of(contents@), pattern@),
{
    let cs = chars_of(contents.as_str());
    let p = chars_of(pattern.as_str());
    let ls = split_lines(&cs);
    let ghost lv = lines_of(contents@);
    let mut n: usize = 0;
    let mut i: usize = 0;
    proof {
        assert(lv.subrange(0, 0) =~= Seq::<Seq<char>>::empty());
    }
    while i < ls.len()
        invariant
            char_rows(ls@, lv),
            i <= ls@.len(),
            n <= i,
            n == count_matching(lv.subrange(0, i as int), p@),
        decreases ls.len() - i,
    {
        proof {
            assert(lv.subrange(0, i + 1).drop_last() =~= lv.subrange(0, i as int));
        }
        if contains_chars(&ls[i], &p) {
            n = n + 1;
        }
        i = i + 1;
    }
    proof {
        assert(lv.subrange(0, ls@.len() as int) =~= lv);
    }
    n
}

/// The lines of `contents` that contain `pattern`, with their 1-based line
/// numbers, in ascending order.
pub fn scan(contents: &String, pattern: &String) -> (r: Vec<MatchRecord>)
    ensures
        records_are(r@, matches_of(lines_of(contents@), pattern@)),
{
    let cs = chars_of(contents.as_str());
    let p = chars_of(pattern.as_str());
    let ls = split_lines(&cs);
    let ghost lv = lines_of(contents@);
    let mut out: Vec<MatchRecord> = Vec::new();
    let mut i: usize = 0;
    proof {
        assert(lv.subrange(0, 0) =~= Seq::<Seq<char>>::empty());
    }
    while i < ls.len()
        invariant
            char_rows(ls@, lv),
            i <= ls@.len(),
            records_are(out@, matches_of(lv.subrange(0, i as int), p@)),
        decreases ls.len() - i,
    {
        let ghost sub = lv.subrange(0, i + 1);
        proof {
            assert(sub.drop_last() =~= lv.subrange(0, i as int));
        }
        if contains_chars(&ls[i], &p) {
            let text = string_of(&ls[i]);
            out.push(MatchRecord { line_number: i + 1, text });
        }
        i = i + 1;
    }
    proof {
        assert(lv.subrange(0, ls@.len() as int) =~= lv);
    }
    out
}

/// Renders one match: the path prefix when `with_path`, the line-number
/// prefix when `with_number`, then the line's text.
pub fn format_match(
    file_path: &String,
    record: &MatchRecord,
    with_number: bool,
    with_path: bool,
    colored: bool,
) -> (r: String)
    ensures
        r@ == format_spec(
            file_path@,
            record.line_number as nat,
            record.text@,
            with_number,
            with_path,
            colored,
        ),
{
    let mut out = String::new();
    if with_path {
        let p = paint(file_path, Color::Blue, colored);
        out.append(p.as_str());
        out.append(":");
    }
    if with_number {
        let d = decimal_string(record.line_number);
        let p = paint(&d, Color::Red, colored);
        out.append(p.as_str());
        out.append(":");
    }
    out.append(record.text.as_str());
    proof {
        reveal_strlit(":");
        let ps = if with_path {
            painted(file_path@, Color::Blue, colored).push(':')
        } else {
            Seq::empty()
        };
        let ns = if with_number {
            painted(decimal(record.line_number as nat), Color::Red, colored).push(':')
        } else {
            Seq::empty()
        };
        assert(out@ =~= ps + ns + record.text@);
    }
    out
}

/// The printed lines for the matches of `pattern` in the file `file_path`
/// whose text is `contents`.
pub fn get_matches(
    file_path: &String,
    contents: &String,
    pattern: &String,
    lines: bool,
    recursive: bool,
    colored: bool,
) -> (r: Vec<String>)
    ensures
        r@.len() == matches_of(lines_of(contents@), pattern@).len(),
        forall|i: int|
            0 <= i < r@.len() ==> (#[trigger] r@[i])@ == format_spec(
                file_path@,
                matches_of(lines_of(contents@), pattern@)[i].0,
                matches_of(lines_of(contents@), pattern@)[i].1,
                lines,
                recursive,
                colored,
            ),
{
    let recs = scan(contents, pattern);
    let ghost m = matches_of(lines_of(contents@), pattern@);
    let mut out: Vec<String> = Vec::new();
    let mut i: usize = 0;
    while i < recs.len()
        invariant
            records_are(recs@, m),
            i <= recs@.len(),
            out@.len() == i,
            forall|j: int|
                0 <= j < i ==> (#[trigger] out@[j])@ == format_spec(
                    file_path@,
                    m[j].0,
                    m[j].1,
                    lines,
                    recursive,
                    colored,
                ),
        decreases recs.len() - i,
    {
        let s = format_match(file_path, &recs[i], lines, recursive, colored);
        out.push(s);
        i = i + 1;
    }
    out
}

/// The sum of the counts in `outcomes`; a failed outcome adds nothing.
pub open spec fn ok_total(outcomes: Seq<Result<usize, GrepError>>) -> nat
    decreases outcomes.len(),
{
    if outcomes.len() == 0 {
        0
    } else {
        ok_total(outcomes.drop_last()) + match outcomes.last() {
            Ok(n) => n as nat,
            Err(_) => 0nat,
        }
    }
}

/// The errors among `outcomes`, in order.
pub open spec fn errors_of(outcomes: Seq<Result<usize, GrepError>>) -> Seq<GrepError>
    decreases outcomes.len(),
{
    if outcomes.len() == 0 {
        Seq::empty()
    } else {
        let r = errors_of(outcomes.drop_last());
        match outcomes.last() {
            Ok(_) => r,
            Err(e) => r.push(e),
        }
    }
}

/// `n` capped at the largest `usize`.
pub open spec fn capped(n: nat) -> nat {
    if n > usize::MAX {
        usize::MAX as nat
    } else {
        n
    }
}

/// Aggregates the per-file outcomes of counting across a directory: the
/// total of the successful counts (capped at the largest `usize`), and one
/// warning message per failed file, in order.
pub fn sum_counts(outcomes: &Vec<Result<usize, GrepError>>, colored: bool) -> (r: (
    usize,
    Vec<String>,
))
    ensures
        r.0 as nat == capped(ok_total(outcomes@)),
        r.1@.len() == errors_of(outcomes@).len(),
        forall|i: int|
            0 <= i < r.1@.len() ==> (#[trigger] r.1@[i])@ == message_spec(
                errors_of(outcomes@)[i],
                colored,
            ),
{
    let ghost os = outcomes@;
    let mut total: usize = 0;
    let mut warnings: Vec<String> = Vec::new();
    let mut i: usize = 0;
    proof {
        assert(os.subrange(0, 0) =~= Seq::<Result<usize, GrepError>>::empty());
    }
    while i < outcomes.len()
        invariant
            os == outcomes@,
            i <= os.len(),
            total as nat == capped(ok_total(os.subrange(0, i as int))),
            warnings@.len() == errors_of(os.subrange(0, i as int)).len(),
            forall|j: int|
                0 <= j < warnings@.len() ==> (#[trigger] warnings@[j])@ == message_spec(
                    errors_of(os.subrange(0, i as int))[j],
                    colored,
                ),
        decreases outcomes.len() - i,
    {
        proof {
            assert(os.subrange(0, i + 1).drop_last() =~= os.subrange(0, i as int));
        }
        match &outcomes[i] {
            Ok(n) => {
                total = total.saturating_add(*n);
            },
            Err(e) => {
                let m = e.message(colored);
                warnings.push(m);
            },
        }
        i = i + 1;
    }
    proof {
        assert(os.subrange(0, os.len() as int) =~= os);
    }
    (total, warnings)
}

/// Counting agrees with scanning: the number of matching lines is the
/// number of match records.
pub proof fn lemma_count_is_scan_len(ls: Seq<Seq<char>>, p: Seq<char>)
    ensures
        count_matching(ls, p) == matches_of(ls, p).len(),
    decreases ls.len(),
{
    if ls.len() > 0 {
        lemma_count_is_scan_len(ls.drop_last(), p);
    }
}

/// The match records of `ls` are exactly its lines that contain `p`: each
/// record names a line (1-based) and holds that line's text, which contains
/// `p`; the line numbers strictly ascend; and every line that contains `p`
/// has a record.
pub proof fn lemma_scan_exact(ls: Seq<Seq<char>>, p: Seq<char>)
    ensures
        forall|i: int|
            0 <= i < matches_of(ls, p).len() ==> {
                let m = #[trigger] matches_of(ls, p)[i];
                &&& 1 <= m.0 <= ls.len()
                &&& ls[m.0 - 1] == m.1
                &&& contains(m.1, p)
            },
        forall|i: int, j: int|
            0 <= i < j < matches_of(ls, p).len() ==> #[trigger] matches_of(ls, p)[i].0
                < #[trigger] matches_of(ls, p)[j].0,
        forall|k: int|
            0 <= k < ls.len() && contains(#[trigger] ls[k], p) ==> exists|i: int|
                0 <= i < matches_of(ls, p).len() && #[trigger] matches_of(ls, p)[i].0 == k + 1,
    decreases ls.len(),
{
    if ls.len() > 0 {
        let prev = ls.drop_last();
        lemma_scan_exact(prev, p);
        let mp = matches_of(prev, p);
        let m = matches_of(ls, p);
        assert forall|i: int| 0 <= i < mp.len() implies mp[i].0 <= prev.len() by {}
        assert forall|k: int| 0 <= k < ls.len() && contains(#[trigger] ls[k], p) implies exists|i: int|
            0 <= i < m.len() && #[trigger] m[i].0 == k + 1 by {
            if k < prev.len() {
                assert(prev[k] == ls[k]);
                let i = choose|i: int| 0 <= i < mp.len() && #[trigger] mp[i].0 == k + 1;
                assert(m[i] == mp[i]);
            } else {
                assert(m[mp.len() as int].0 == k + 1);
            }
        }
        assert forall|i: int| 0 <= i < m.len() implies {
            let r = #[trigger] m[i];
            &&& 1 <= r.0 <= ls.len()
            &&& ls[r.0 - 1] == r.1
            &&& contains(r.1, p)
        } by {
            if i < mp.len() {
                assert(m[i] == mp[i]);
                assert(prev[mp[i].0 - 1] == ls[mp[i].0 - 1]);
            }
        }
    }
}

} // verus!
