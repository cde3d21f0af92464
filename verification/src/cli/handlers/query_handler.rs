//! The SQL text handling of the query command: splitting a script into
//! statements, stripping leading comments, telling reads from writes.

use vstd::prelude::*;
use vstd::string::*;
use vstd::utf8::*;
use crate::text::{
    decimal, push_decimal,
    find_char, find_char_index, find_pair_from, find_pair_index, join, join_strs,
    count_char, count_char_in, lemma_count_char_le, lemma_find_char_from, lemma_find_pair_from,
    lemma_trim_start_len, lemma_word_end_bounds, split_words, starts_with, str_eq, str_starts_with, trim, trim_start,
    trim_end, trim_start_str, trim_str, word_end, words, words_from, is_ws, is_word,
    lemma_words_are_words, law_words_of_joined_words,
};

verus! {

broadcast use vstd::utf8::encode_utf8_decode_utf8, vstd::utf8::encode_utf8_valid_utf8;

/* Bytes */

/// An ASCII letter, digit or `_`.
pub open spec fn is_word_byte(b: u8) -> bool {
    (48 <= b && b <= 57) || (65 <= b && b <= 90) || (97 <= b && b <= 122) || b == 95
}

/// The byte with an ASCII upper-case letter made lower-case.
pub open spec fn ascii_lower(b: u8) -> u8 {
    if 65 <= b && b <= 90 { (b + 32) as u8 } else { b }
}

fn word_byte(b: u8) -> (r: bool)
    ensures
        r == is_word_byte(b),
{
    (48 <= b && b <= 57) || (65 <= b && b <= 90) || (97 <= b && b <= 122) || b == 95
}

fn lower(b: u8) -> (r: u8)
    ensures
        r == ascii_lower(b),
{
    if 65 <= b && b <= 90 { b + 32 } else { b }
}

/// Whether the keyword `kw` stands at byte `pos` of `b`: the same bytes up to
/// ASCII case, with no letter, digit or `_` right before or right after.
pub open spec fn keyword_at_bytes(b: Seq<u8>, pos: int, kw: Seq<u8>) -> bool {
    let end = pos + kw.len();
    &&& 0 <= pos
    &&& end <= b.len()
    &&& forall|j: int| 0 <= j < kw.len() ==> ascii_lower(#[trigger] b[pos + j]) == ascii_lower(kw[j])
    &&& (pos == 0 || !is_word_byte(b[pos - 1]))
    &&& (end == b.len() || !is_word_byte(b[end]))
}

fn keyword_at_slice(b: &[u8], pos: usize, kw: &[u8]) -> (r: bool)
    requires
        pos + kw@.len() <= usize::MAX,
    ensures
        r == keyword_at_bytes(b@, pos as int, kw@),
{
    let end = pos + kw.len();
    if end > b.len() {
        return false;
    }
    let mut j: usize = 0;
    while j < kw.len()
        invariant
            end == pos + kw@.len(),
            end <= b@.len(),
            j <= kw@.len(),
            forall|k: int| 0 <= k < j ==> ascii_lower(#[trigger] b@[pos + k]) == ascii_lower(kw@[k]),
        decreases kw@.len() - j,
    {
        if lower(b[pos + j]) != lower(kw[j]) {
            return false;
        }
        j = j + 1;
    }
    let before_ok = pos == 0 || !word_byte(b[pos - 1]);
    let after_ok = end == b.len() || !word_byte(b[end]);
    before_ok && after_ok
}

/// Whether the keyword `kw` stands at byte `pos` of `sql`, compared up to
/// ASCII case, and is not part of a longer word.
pub fn keyword_at(sql: &str, pos: usize, kw: &str) -> (r: bool)
    requires
        pos + kw.spec_bytes().len() <= usize::MAX,
    ensures
        r == keyword_at_bytes(sql.spec_bytes(), pos as int, kw.spec_bytes()),
{
    keyword_at_slice(sql.as_bytes(), pos, kw.as_bytes())
}

/* Splitting a script */

/// The keyword that opens a block.
pub open spec fn begin_bytes() -> Seq<u8> {
    seq![66u8, 69u8, 71u8, 73u8, 78u8]
}

/// The keyword that closes a block.
pub open spec fn end_bytes() -> Seq<u8> {
    seq![69u8, 78u8, 68u8]
}

/// The first position from `i` on that does not hold a letter, digit or `_`.
pub open spec fn word_run_end(b: Seq<u8>, i: int) -> int
    decreases b.len() - i,
{
    if 0 <= i < b.len() && is_word_byte(b[i]) { word_run_end(b, i + 1) } else { i }
}

/// The first position from `i` on that holds `q`, or the end.
pub open spec fn skip_to(b: Seq<u8>, i: int, q: u8) -> int
    decreases b.len() - i,
{
    if 0 <= i < b.len() && b[i] != q { skip_to(b, i + 1, q) } else { i }
}

/// Where the search for the end of a block comment stops: the `*` of `*/`,
/// or the last byte (or beyond it, for a comment that starts at the end).
pub open spec fn block_end(b: Seq<u8>, i: int) -> int
    decreases b.len() - i,
{
    if 0 <= i && i + 1 < b.len() && !(b[i] == 42 && b[i + 1] == 47) { block_end(b, i + 1) } else { i }
}

/// Where the search for the closing tag `b[ts..ts + tl]` of a dollar-quoted
/// string stops: the last byte of the closing tag, or the first position
/// from which the tag no longer fits.
pub open spec fn close_tag(b: Seq<u8>, i: int, ts: int, tl: int) -> int
    decreases b.len() - i,
{
    if 0 <= i && tl > 0 && i + tl <= b.len() {
        if b.subrange(i, i + tl) == b.subrange(ts, ts + tl) { i + tl - 1 } else { close_tag(b, i + 1, ts, tl) }
    } else {
        i
    }
}

/// One step of the scan at byte `i`: the next position, start of the
/// current statement and nesting depth, and the statement that ends here.
pub open spec fn scan_step(b: Seq<u8>, i: int, start: int, depth: int) -> (int, int, int, Option<(int, int)>) {
    let c = b[i];
    if c == 36 {
        let j = word_run_end(b, i + 1);
        if j < b.len() && b[j] == 36 {
            (close_tag(b, j + 1, i, j - i + 1) + 1, start, depth, None)
        } else {
            (j, start, depth, None)
        }
    } else if c == 39 || c == 34 {
        (skip_to(b, i + 1, c) + 1, start, depth, None)
    } else if c == 45 && i + 1 < b.len() && b[i + 1] == 45 {
        (skip_to(b, i, 10) + 1, start, depth, None)
    } else if c == 47 && i + 1 < b.len() && b[i + 1] == 42 {
        (block_end(b, i + 2) + 2, start, depth, None)
    } else if c == 59 && depth <= 0 {
        (i + 1, i + 1, depth, Some((start, i)))
    } else if keyword_at_bytes(b, i, begin_bytes()) {
        (i + 5, start, depth + 1, None)
    } else if keyword_at_bytes(b, i, end_bytes()) {
        (i + 3, start, depth - 1, None)
    } else {
        (i + 1, start, depth, None)
    }
}

pub proof fn lemma_scan_helpers(b: Seq<u8>, i: int)
    requires
        0 <= i <= b.len(),
    ensures
        i <= word_run_end(b, i) <= b.len(),
        forall|q: u8| i <= #[trigger] skip_to(b, i, q) <= b.len(),
        i <= block_end(b, i),
        block_end(b, i) < b.len() || block_end(b, i) == i,
    decreases b.len() - i,
{
    if i < b.len() {
        lemma_scan_helpers(b, i + 1);
    }
    assert forall|q: u8| i <= #[trigger] skip_to(b, i, q) <= b.len() by {
        if i < b.len() && b[i] != q {
            assert(i + 1 <= skip_to(b, i + 1, q) <= b.len());
        }
    }
}

pub proof fn lemma_close_tag_bounds(b: Seq<u8>, i: int, ts: int, tl: int)
    requires
        0 <= i,
        tl >= 2,
    ensures
        i <= close_tag(b, i, ts, tl),
        close_tag(b, i, ts, tl) <= b.len() || close_tag(b, i, ts, tl) == i,
    decreases b.len() - i,
{
    if tl > 0 && i + tl <= b.len() {
        if b.subrange(i, i + tl) != b.subrange(ts, ts + tl) {
            lemma_close_tag_bounds(b, i + 1, ts, tl);
        }
    }
}

/// The byte ranges of the statements that the scan from byte `i` finds,
/// the rest of the text being the last one.
pub open spec fn scan(b: Seq<u8>, i: int, start: int, depth: int) -> Seq<(int, int)>
    decreases b.len() - i,
{
    if i < 0 || i >= b.len() {
        seq![(start, b.len() as int)]
    } else {
        let (i2, s2, d2, out) = scan_step(b, i, start, depth);
        let next = if i2 > b.len() { b.len() as int } else { i2 };
        proof {
            lemma_step_advances(b, i, start, depth);
        }
        match out {
            Some(r) => seq![r] + scan(b, next, s2, d2),
            None => scan(b, next, s2, d2),
        }
    }
}

pub proof fn lemma_step_advances(b: Seq<u8>, i: int, start: int, depth: int)
    requires
        0 <= i < b.len(),
    ensures
        scan_step(b, i, start, depth).0 > i,
{
    lemma_scan_helpers(b, i + 1);
    lemma_scan_helpers(b, i);
    if b[i] == 36 {
        let j = word_run_end(b, i + 1);
        if j < b.len() && b[j] == 36 {
            lemma_close_tag_bounds(b, j + 1, i, j - i + 1);
        }
    }
    if b[i] == 47 && i + 1 < b.len() && b[i + 1] == 42 {
        lemma_scan_helpers(b, i + 2);
    }
}

/// The statements of a script: the pieces between the semicolons that end
/// statements, white space trimmed, empty ones left out. A semicolon does
/// not end a statement inside quotes, dollar-quoted strings or comments, nor
/// between `BEGIN` and its `END`.
pub open spec fn statements(sql: Seq<char>) -> Seq<Seq<char>> {
    let b = encode_utf8(sql);
    scan(b, 0, 0, 0).map_values(|r: (int, int)| trim(decode_utf8(b.subrange(r.0, r.1)))).filter(
        |s: Seq<char>| s.len() > 0,
    )
}

fn word_run_end_exec(b: &[u8], i: usize) -> (r: usize)
    requires
        i <= b@.len(),
    ensures
        r == word_run_end(b@, i as int),
    decreases b@.len() - i,
{
    if i < b.len() && word_byte(b[i]) { word_run_end_exec(b, i + 1) } else { i }
}

fn skip_to_exec(b: &[u8], i: usize, q: u8) -> (r: usize)
    requires
        i <= b@.len(),
    ensures
        r == skip_to(b@, i as int, q),
    decreases b@.len() - i,
{
    if i < b.len() && b[i] != q { skip_to_exec(b, i + 1, q) } else { i }
}

fn block_end_exec(b: &[u8], i: usize) -> (r: usize)
    requires
        b@.len() <= isize::MAX,
        i <= b@.len() + 2,
    ensures
        r == block_end(b@, i as int),
    decreases b@.len() + 2 - i,
{
    if i + 1 < b.len() && !(b[i] == 42 && b[i + 1] == 47) { block_end_exec(b, i + 1) } else { i }
}

fn bytes_match(b: &[u8], i: usize, ts: usize, tl: usize) -> (r: bool)
    requires
        b@.len() <= isize::MAX,
        i + tl <= b@.len(),
        ts + tl <= b@.len(),
    ensures
        r == (b@.subrange(i as int, i + tl) == b@.subrange(ts as int, ts + tl)),
{
    let mut k: usize = 0;
    while k < tl
        invariant
            b@.len() <= isize::MAX,
            i + tl <= b@.len(),
            ts + tl <= b@.len(),
            k <= tl,
            forall|m: int| 0 <= m < k ==> #[trigger] b@[i + m] == b@[ts + m],
        decreases tl - k,
    {
        if b[i + k] != b[ts + k] {
            assert(b@.subrange(i as int, i + tl)[k as int] != b@.subrange(ts as int, ts + tl)[k as int]);
            return false;
        }
        k = k + 1;
    }
    assert forall|m: int| 0 <= m < tl implies #[trigger] b@.subrange(i as int, i + tl)[m] == b@.subrange(ts as int, ts + tl)[m] by {
        assert(b@[i + m] == b@[ts + m]);
    }
    assert(b@.subrange(i as int, i + tl) =~= b@.subrange(ts as int, ts + tl));
    true
}

fn close_tag_exec(b: &[u8], i: usize, ts: usize, tl: usize) -> (r: usize)
    requires
        b@.len() <= isize::MAX,
        i <= b@.len() + 1,
        ts + tl <= b@.len(),
        tl >= 2,
    ensures
        r == close_tag(b@, i as int, ts as int, tl as int),
    decreases b@.len() + 1 - i,
{
    if i + tl <= b.len() {
        if bytes_match(b, i, ts, tl) { i + tl - 1 } else { close_tag_exec(b, i + 1, ts, tl) }
    } else {
        i
    }
}

/// A semicolon and the byte after it stand on character boundaries.
proof fn lemma_boundaries_around_ascii(b: Seq<u8>, i: int)
    requires
        valid_utf8(b),
        0 <= i < b.len(),
        b[i] < 0x80,
    ensures
        is_char_boundary(b, i),
        is_char_boundary(b, i + 1),
{
    is_char_boundary_iff_not_is_continuation_byte(b, i);
    if i + 1 == b.len() {
        is_char_boundary_start_end_of_seq(b);
    } else {
        valid_utf8_split(b, i);
        let t = b.subrange(i, b.len() as int);
        assert(t[0] == b[i]);
        assert(pop_first_scalar(t) =~= b.subrange(i + 1, b.len() as int));
        let u = b.subrange(i + 1, b.len() as int);
        assert(valid_utf8(u));
        assert(u[0] == b[i + 1]);
        is_char_boundary_iff_not_is_continuation_byte(b, i + 1);
    }
}

/// A boundary of `b` from `s` on is a boundary of the bytes from `s` on.
proof fn lemma_boundary_in_suffix(b: Seq<u8>, s: int, e: int)
    requires
        valid_utf8(b),
        is_char_boundary(b, s),
        is_char_boundary(b, e),
        0 <= s <= e <= b.len(),
    ensures
        valid_utf8(b.subrange(s, b.len() as int)),
        is_char_boundary(b.subrange(s, b.len() as int), e - s),
{
    valid_utf8_split(b, s);
    let t = b.subrange(s, b.len() as int);
    if e == b.len() {
        is_char_boundary_start_end_of_seq(t);
    } else {
        is_char_boundary_iff_not_is_continuation_byte(b, e);
        is_char_boundary_iff_not_is_continuation_byte(t, e - s);
    }
}

/// The text of `sql` between two byte positions on character boundaries.
fn piece<'a>(sql: &'a str, s: usize, e: usize) -> (r: &'a str)
    requires
        s <= e <= sql.spec_bytes().len(),
        is_char_boundary(sql.spec_bytes(), s as int),
        is_char_boundary(sql.spec_bytes(), e as int),
    ensures
        r@ == decode_utf8(sql.spec_bytes().subrange(s as int, e as int)),
{
    let ghost b = sql.spec_bytes();
    proof {
        lemma_boundary_in_suffix(b, s as int, e as int);
    }
    let (_, rest) = sql.split_at(s);
    assert(rest.spec_bytes() =~= b.subrange(s as int, b.len() as int));
    let (r, _) = rest.split_at(e - s);
    assert(r.spec_bytes() =~= b.subrange(s as int, e as int));
    assert(decode_utf8(encode_utf8(r@)) == r@);
    r
}

/// Splits a script into its statements.
pub fn split_statements<'a>(sql: &'a str) -> (r: Vec<&'a str>)
    requires
        sql.spec_bytes().len() <= isize::MAX,
    ensures
        r@.map_values(|s: &str| s@) == statements(sql@),
{
    let b = sql.as_bytes();
    let n = b.len();
    let ghost bs = b@;
    assert(bs == encode_utf8(sql@));
    assert(valid_utf8(bs));
    proof {
        is_char_boundary_start_end_of_seq(bs);
    }
    let begin_kw: Vec<u8> = vec![66u8, 69u8, 71u8, 73u8, 78u8];
    let end_kw: Vec<u8> = vec![69u8, 78u8, 68u8];
    assert(begin_kw@ =~= begin_bytes());
    assert(end_kw@ =~= end_bytes());
    let mut ranges: Vec<(usize, usize)> = Vec::new();
    let mut start: usize = 0;
    let mut depth: i64 = 0;
    let mut i: usize = 0;
    while i < n
        invariant
            b@ == bs,
            n == bs.len(),
            n <= isize::MAX,
            valid_utf8(bs),
            begin_kw@ == begin_bytes(),
            end_kw@ == end_bytes(),
            i <= n,
            start <= i,
            is_char_boundary(bs, start as int),
            3 * (if depth < 0 { -depth } else { depth as int }) <= i,
            forall|k: int| 0 <= k < ranges@.len() ==> {
                let rg = #[trigger] ranges@[k];
                rg.0 <= rg.1 <= n && is_char_boundary(bs, rg.0 as int) && is_char_boundary(bs, rg.1 as int)
            },
            ranges@.map_values(|rg: (usize, usize)| (rg.0 as int, rg.1 as int)) + scan(bs, i as int, start as int, depth as int)
                == scan(bs, 0, 0, 0),
        decreases n - i,
    {
        let ghost old_ranges = ranges@.map_values(|rg: (usize, usize)| (rg.0 as int, rg.1 as int));
        let ghost step = scan_step(bs, i as int, start as int, depth as int);
        let ghost old_start = start as int;
        let ghost old_depth = depth as int;
        proof {
            lemma_scan_helpers(bs, i as int);
            lemma_scan_helpers(bs, i + 1);
            lemma_step_advances(bs, i as int, start as int, depth as int);
        }
        let c = b[i];
        let mut next: usize;
        if c == 36 {
            let j = word_run_end_exec(b, i + 1);
            if j < n && b[j] == 36 {
                let k = close_tag_exec(b, j + 1, i, j - i + 1);
                proof {
                    lemma_close_tag_bounds(bs, j + 1, i as int, j - i + 1);
                }
                next = k + 1;
            } else {
                next = j;
            }
        } else if c == 39 || c == 34 {
            next = skip_to_exec(b, i + 1, c) + 1;
        } else if c == 45 && i + 1 < n && b[i + 1] == 45 {
            next = skip_to_exec(b, i, 10) + 1;
        } else if c == 47 && i + 1 < n && b[i + 1] == 42 {
            proof {
                lemma_scan_helpers(bs, i + 2);
            }
            next = block_end_exec(b, i + 2) + 2;
        } else if c == 59 && depth <= 0 {
            proof {
                lemma_boundaries_around_ascii(bs, i as int);
            }
            ranges.push((start, i));
            start = i + 1;
            next = i + 1;
        } else if keyword_at_slice(b, i, begin_kw.as_slice()) {
            depth = depth + 1;
            next = i + 5;
        } else if keyword_at_slice(b, i, end_kw.as_slice()) {
            depth = depth - 1;
            next = i + 3;
        } else {
            next = i + 1;
        }
        assert(next == step.0);
        assert(start == step.1);
        assert(depth == step.2);
        if next > n {
            next = n;
        }
        proof {
            let new_ranges = ranges@.map_values(|rg: (usize, usize)| (rg.0 as int, rg.1 as int));
            let nx = next as int;
            assert(nx == if step.0 > bs.len() { bs.len() as int } else { step.0 });
            match step.3 {
                Some(rg) => {
                    assert(new_ranges =~= old_ranges.push(rg));
                    assert(scan(bs, i as int, old_start, old_depth) == seq![rg] + scan(bs, nx, step.1, step.2));
                    assert(new_ranges + scan(bs, nx, step.1, step.2) =~= old_ranges + (seq![rg] + scan(bs, nx, step.1, step.2)));
                },
                None => {
                    assert(new_ranges =~= old_ranges);
                    assert(scan(bs, i as int, old_start, old_depth) == scan(bs, nx, step.1, step.2));
                },
            }
        }
        i = next;
    }
    ranges.push((start, n));
    let ghost all = ranges@.map_values(|rg: (usize, usize)| (rg.0 as int, rg.1 as int));
    assert(all =~= scan(bs, 0, 0, 0));
    let ghost pieces = all.map_values(|rg: (int, int)| trim(decode_utf8(bs.subrange(rg.0, rg.1))));
    let mut out: Vec<&'a str> = Vec::new();
    let mut k: usize = 0;
    let ghost keep = |s: Seq<char>| s.len() > 0;
    assert(pieces.take(0).filter(keep) =~= Seq::<Seq<char>>::empty());
    while k < ranges.len()
        invariant
            b@ == bs,
            bs == encode_utf8(sql@),
            all == ranges@.map_values(|rg: (usize, usize)| (rg.0 as int, rg.1 as int)),
            keep == |s: Seq<char>| s.len() > 0,
            pieces == all.map_values(|rg: (int, int)| trim(decode_utf8(bs.subrange(rg.0, rg.1)))),
            k <= ranges@.len(),
            forall|j: int| 0 <= j < ranges@.len() ==> {
                let rg = #[trigger] ranges@[j];
                rg.0 <= rg.1 <= bs.len() && is_char_boundary(bs, rg.0 as int) && is_char_boundary(bs, rg.1 as int)
            },
            out@.map_values(|s: &str| s@) == pieces.take(k as int).filter(keep),
        decreases ranges@.len() - k,
    {
        let (s, e) = ranges[k];
        let p = trim_str(piece(sql, s, e));
        assert(p@ == pieces[k as int]);
        let ghost before = out@.map_values(|s: &str| s@);
        proof {
            reveal(Seq::filter);
            assert(pieces.take(k + 1).drop_last() =~= pieces.take(k as int));
            assert(pieces.take(k + 1).last() == pieces[k as int]);
        }
        if p.unicode_len() > 0 {
            out.push(p);
            assert(out@.map_values(|s: &str| s@) =~= before.push(p@));
            assert(pieces.take(k + 1).filter(keep) == pieces.take(k as int).filter(keep).push(p@)) by {
                reveal(Seq::filter);
                let t = pieces.take(k + 1);
                assert(t.len() == k + 1);
                assert(t.drop_last() =~= pieces.take(k as int));
                assert(t.last() == p@);
                assert(keep(t.last()));
                assert(t.filter(keep) == t.drop_last().filter(keep).push(t.last()));
            }
        } else {
            assert(pieces.take(k + 1).filter(keep) == pieces.take(k as int).filter(keep)) by {
                reveal(Seq::filter);
                let t = pieces.take(k + 1);
                assert(t.len() == k + 1);
                assert(t.drop_last() =~= pieces.take(k as int));
                assert(t.last() == p@);
                assert(!keep(t.last()));
                assert(t.filter(keep) == t.drop_last().filter(keep));
            }
        }
        k = k + 1;
    }
    assert(pieces.take(ranges@.len() as int) =~= pieces);
    out
}


/* Leading comments */

/// The text after its leading white space, `--` line comments and `/* */`
/// block comments; an unclosed comment leaves nothing.
pub open spec fn strip_comments(s: Seq<char>) -> Seq<char>
    decreases s.len(),
{
    let t = trim_start(s);
    if t.len() >= 2 && t[0] == '-' && t[1] == '-' {
        match find_char(t, '\n') {
            Some(i) => {
                proof {
                    lemma_trim_start_len(s);
                    lemma_find_char_from(t, '\n', 0);
                }
                strip_comments(t.skip(i + 1))
            },
            None => seq![],
        }
    } else if t.len() >= 2 && t[0] == '/' && t[1] == '*' {
        match find_pair_from(t, '*', '/', 0) {
            Some(i) => {
                proof {
                    lemma_trim_start_len(s);
                    lemma_find_pair_from(t, '*', '/', 0);
                }
                strip_comments(t.skip(i + 2))
            },
            None => seq![],
        }
    } else {
        t
    }
}

/// The text after its leading white space and comments.
pub fn strip_leading_comments(sql: &str) -> (r: &str)
    ensures
        r@ == strip_comments(sql@),
    decreases sql@.len(),
{
    let t = trim_start_str(sql);
    let n = t.unicode_len();
    proof {
        lemma_trim_start_len(sql@);
    }
    if n >= 2 && t.get_char(0) == '-' && t.get_char(1) == '-' {
        match find_char_index(t, '\n') {
            Some(i) => {
                proof {
                    lemma_find_char_from(t@, '\n', 0);
                }
                strip_leading_comments(t.substring_char(i + 1, n))
            },
            None => t.substring_char(n, n),
        }
    } else if n >= 2 && t.get_char(0) == '/' && t.get_char(1) == '*' {
        match find_pair_index(t, '*', '/') {
            Some(i) => {
                proof {
                    lemma_find_pair_from(t@, '*', '/', 0);
                }
                strip_leading_comments(t.substring_char(i + 2, n))
            },
            None => t.substring_char(n, n),
        }
    } else {
        t
    }
}

/// A single space.
pub open spec fn space() -> Seq<char> {
    seq![' ']
}

/// At most the first three of `ws`.
pub open spec fn first_three(ws: Seq<Seq<char>>) -> Seq<Seq<char>> {
    if ws.len() <= 3 { ws } else { ws.take(3) }
}

/// The first three words of a statement, after its leading comments, joined
/// by single spaces: the short form under which a statement is reported.
pub fn truncate_query(sql: &str) -> (r: String)
    ensures
        r@ == join(first_three(words(strip_comments(sql@))), space()),
{
    let ws = split_words(strip_leading_comments(sql));
    let mut first: Vec<&str> = Vec::new();
    let mut k: usize = 0;
    while k < ws.len() && k < 3
        invariant
            k <= ws@.len(),
            k <= 3,
            first@ =~= ws@.take(k as int),
        decreases ws@.len() - k,
    {
        first.push(ws[k]);
        k = k + 1;
    }
    proof {
        reveal_strlit(" ");
        assert(" "@ =~= space());
        assert(first@.map_values(|w: &str| w@) =~= first_three(ws@.map_values(|w: &str| w@)));
    }
    join_strs(&first, " ")
}

/* Reads and writes */

/// The upper-case form of a text, as `str::to_uppercase` gives it (full
/// Unicode case mapping).
pub uninterp spec fn uppercased(s: Seq<char>) -> Seq<char>;

/// Calls `str::to_uppercase`. The contract claims only that the result is a
/// function of the text, named `uppercased`; the Unicode mapping is not stated.
#[verifier::external_body]
fn to_upper(s: &str) -> (r: String)
    ensures
        r@ == uppercased(s@),
{
    s.to_uppercase()
}

pub open spec fn kw_select() -> Seq<char> {
    seq!['S', 'E', 'L', 'E', 'C', 'T']
}

pub open spec fn kw_insert() -> Seq<char> {
    seq!['I', 'N', 'S', 'E', 'R', 'T']
}

pub open spec fn kw_update() -> Seq<char> {
    seq!['U', 'P', 'D', 'A', 'T', 'E']
}

pub open spec fn kw_delete() -> Seq<char> {
    seq!['D', 'E', 'L', 'E', 'T', 'E']
}

pub open spec fn kw_merge() -> Seq<char> {
    seq!['M', 'E', 'R', 'G', 'E']
}

pub open spec fn kw_with() -> Seq<char> {
    seq!['W', 'I', 'T', 'H']
}

pub open spec fn kw_explain() -> Seq<char> {
    seq!['E', 'X', 'P', 'L', 'A', 'I', 'N']
}

pub open spec fn kw_show() -> Seq<char> {
    seq!['S', 'H', 'O', 'W']
}

pub open spec fn kw_describe() -> Seq<char> {
    seq!['D', 'E', 'S', 'C', 'R', 'I', 'B', 'E']
}

pub open spec fn kw_desc_space() -> Seq<char> {
    seq!['D', 'E', 'S', 'C', ' ']
}

pub open spec fn kw_pragma() -> Seq<char> {
    seq!['P', 'R', 'A', 'G', 'M', 'A']
}

pub open spec fn kw_table() -> Seq<char> {
    seq!['T', 'A', 'B', 'L', 'E']
}

pub open spec fn kw_values() -> Seq<char> {
    seq!['V', 'A', 'L', 'U', 'E', 'S']
}

/// A keyword that makes a statement write.
pub open spec fn is_write_keyword(w: Seq<char>) -> bool {
    w == kw_insert() || w == kw_update() || w == kw_delete() || w == kw_merge()
}

/// The parenthesis depth and the verdict so far after one word of an
/// upper-cased `WITH` statement: a word with parentheses moves the depth by
/// its opening minus its closing ones; at depth 0, `SELECT` makes the verdict
/// a read and a write keyword makes it a write.
pub open spec fn cte_word(w: Seq<char>, depth: int, read: bool) -> (int, bool) {
    if w.contains('(') || w.contains(')') {
        (depth + count_char(w, '(') - count_char(w, ')'), read)
    } else if w == kw_select() && depth == 0 {
        (depth, true)
    } else if is_write_keyword(w) && depth == 0 {
        (depth, false)
    } else {
        (depth, read)
    }
}

/// The verdict after the words `ws`, from the given depth and verdict.
pub open spec fn cte_scan(ws: Seq<Seq<char>>, depth: int, read: bool) -> bool
    decreases ws.len(),
{
    if ws.len() == 0 {
        read
    } else {
        let (d, r) = cte_word(ws[0], depth, read);
        cte_scan(ws.drop_first(), d, r)
    }
}

/// Whether an upper-cased `WITH` statement only reads: its last keyword at
/// parenthesis depth 0 is `SELECT` rather than a write keyword.
pub open spec fn cte_verdict(upper: Seq<char>) -> bool {
    cte_scan(words(upper), 0, true)
}

proof fn lemma_count_char_contains(s: Seq<char>, c: char)
    ensures
        count_char(s, c) > 0 <==> s.contains(c),
    decreases s.len(),
{
    if s.len() > 0 {
        lemma_count_char_contains(s.drop_last(), c);
        if s.drop_last().contains(c) {
            let k = choose|k: int| 0 <= k < s.drop_last().len() && s.drop_last()[k] == c;
            assert(s[k] == c);
        }
        if s.contains(c) && s.last() != c {
            let k = choose|k: int| 0 <= k < s.len() && s[k] == c;
            assert(s.drop_last()[k] == c);
        }
    }
}

/// The total length of the words.
pub open spec fn total_len(ws: Seq<Seq<char>>) -> nat
    decreases ws.len(),
{
    if ws.len() == 0 {
        0
    } else {
        ws[0].len() + total_len(ws.drop_first())
    }
}

proof fn lemma_words_total_len(s: Seq<char>, i: int)
    requires
        0 <= i <= s.len(),
    ensures
        total_len(words_from(s, i)) <= s.len() - i,
    decreases s.len() - i,
{
    if i < s.len() {
        if is_ws(s[i]) {
            lemma_words_total_len(s, i + 1);
        } else {
            let e = word_end(s, i);
            lemma_word_end_bounds(s, i);
            lemma_words_total_len(s, e);
            assert(words_from(s, i).drop_first() =~= words_from(s, e));
        }
    }
}

fn is_select_word(w: &str) -> (r: bool)
    ensures
        r == (w@ == kw_select()),
{
    proof {
        reveal_strlit("SELECT");
        assert("SELECT"@ =~= kw_select());
    }
    str_eq(w, "SELECT")
}

fn is_write_word(w: &str) -> (r: bool)
    ensures
        r == is_write_keyword(w@),
{
    proof {
        reveal_strlit("INSERT");
        reveal_strlit("UPDATE");
        reveal_strlit("DELETE");
        reveal_strlit("MERGE");
        assert("INSERT"@ =~= kw_insert());
        assert("UPDATE"@ =~= kw_update());
        assert("DELETE"@ =~= kw_delete());
        assert("MERGE"@ =~= kw_merge());
    }
    str_eq(w, "INSERT") || str_eq(w, "UPDATE") || str_eq(w, "DELETE") || str_eq(w, "MERGE")
}

/// Whether an upper-cased `WITH` statement only reads.
pub fn cte_read_only_in(upper: &str) -> (r: bool)
    ensures
        r == cte_verdict(upper@),
{
    let ws = split_words(upper);
    let ghost views = ws@.map_values(|w: &str| w@);
    let n = upper.unicode_len();
    let mut depth: i128 = 0;
    let mut read = true;
    let mut i: usize = 0;
    let ghost mut used: int = 0;
    proof {
        lemma_words_total_len(upper@, 0);
    }
    assert(views.skip(0) =~= views);
    while i < ws.len()
        invariant
            views == ws@.map_values(|w: &str| w@),
            views == words(upper@),
            total_len(views) <= n,
            n == upper@.len(),
            i <= ws@.len(),
            used + total_len(views.skip(i as int)) == total_len(views),
            0 <= used,
            -used <= depth <= used,
            cte_verdict(upper@) == cte_scan(views.skip(i as int), depth as int, read),
        decreases ws@.len() - i,
    {
        let w = ws[i];
        let ghost rest = views.skip(i as int);
        proof {
            assert(rest[0] == w@);
            assert(rest.drop_first() =~= views.skip(i + 1));
            lemma_count_char_contains(w@, '(');
            lemma_count_char_contains(w@, ')');
            lemma_count_char_le(w@, '(');
            lemma_count_char_le(w@, ')');
        }
        let opens = count_char_in(w, '(');
        let closes = count_char_in(w, ')');
        if opens > 0 || closes > 0 {
            depth = depth + opens as i128 - closes as i128;
        } else if depth == 0 && is_select_word(w) {
            read = true;
        } else if depth == 0 && is_write_word(w) {
            read = false;
        }
        proof {
            used = used + w@.len();
        }
        i = i + 1;
    }
    read
}

/// Whether a statement only reads. A `SELECT`, `EXPLAIN`, `SHOW`, `DESCRIBE`,
/// `DESC`, `PRAGMA`, `TABLE` or `VALUES` statement does; a `WITH` statement
/// does when its last keyword is `SELECT`, as `cte_read_only` tells.
pub open spec fn read_verdict(upper: Seq<char>, cte_read_only: bool) -> bool {
    ||| starts_with(upper, kw_select())
    ||| (starts_with(upper, kw_with()) && cte_read_only)
    ||| starts_with(upper, kw_explain())
    ||| starts_with(upper, kw_show())
    ||| starts_with(upper, kw_describe())
    ||| starts_with(upper, kw_desc_space())
    ||| starts_with(upper, kw_pragma())
    ||| starts_with(upper, kw_table())
    ||| starts_with(upper, kw_values())
}

/// Whether a statement, upper-cased after its leading comments, only reads.
pub fn read_query_in(upper: &str, cte_read_only: bool) -> (r: bool)
    ensures
        r == read_verdict(upper@, cte_read_only),
{
    proof {
        reveal_strlit("SELECT");
        reveal_strlit("WITH");
        reveal_strlit("EXPLAIN");
        reveal_strlit("SHOW");
        reveal_strlit("DESCRIBE");
        reveal_strlit("DESC ");
        reveal_strlit("PRAGMA");
        reveal_strlit("TABLE");
        reveal_strlit("VALUES");
        assert("SELECT"@ =~= kw_select());
        assert("WITH"@ =~= kw_with());
        assert("EXPLAIN"@ =~= kw_explain());
        assert("SHOW"@ =~= kw_show());
        assert("DESCRIBE"@ =~= kw_describe());
        assert("DESC "@ =~= kw_desc_space());
        assert("PRAGMA"@ =~= kw_pragma());
        assert("TABLE"@ =~= kw_table());
        assert("VALUES"@ =~= kw_values());
    }
    str_starts_with(upper, "SELECT")
        || (str_starts_with(upper, "WITH") && cte_read_only)
        || str_starts_with(upper, "EXPLAIN")
        || str_starts_with(upper, "SHOW")
        || str_starts_with(upper, "DESCRIBE")
        || str_starts_with(upper, "DESC ")
        || str_starts_with(upper, "PRAGMA")
        || str_starts_with(upper, "TABLE")
        || str_starts_with(upper, "VALUES")
}

/// Whether a `WITH` statement only reads: its last keyword at parenthesis
/// depth 0, upper-cased, is `SELECT` rather than a write keyword.
pub fn cte_is_read_only(sql: &str) -> (r: bool)
    ensures
        r == cte_verdict(uppercased(sql@)),
{
    let upper = to_upper(sql);
    cte_read_only_in(upper.as_str())
}

/// Whether a statement only reads, judged by its first keyword after its
/// leading comments, upper-cased.
pub open spec fn is_read(sql: Seq<char>) -> bool {
    read_verdict(uppercased(trim_start(strip_comments(sql))), cte_verdict(uppercased(strip_comments(sql))))
}

/// Whether a statement only reads, judged by its first keyword after its
/// leading comments, upper-cased.
pub fn is_read_query(sql: &str) -> (r: bool)
    ensures
        r == is_read(sql@),
{
    let normalized = strip_leading_comments(sql);
    let upper = to_upper(trim_start_str(normalized));
    let upper_ref = upper.as_str();
    if str_starts_with(upper_ref, "WITH") {
        let cte = cte_is_read_only(normalized);
        read_query_in(upper_ref, cte)
    } else {
        proof {
            reveal_strlit("WITH");
            assert("WITH"@ =~= kw_with());
        }
        read_query_in(upper_ref, false)
    }
}

/* What the query command runs and reports */

/// Whether a statement holds more than white space and comments.
pub open spec fn runnable(stmt: Seq<char>) -> bool {
    strip_comments(stmt).len() > 0
}

/// The statements of a script that are run: those that hold more than
/// white space and comments, in order.
pub fn runnable_statements<'a>(sql: &'a str) -> (r: Vec<&'a str>)
    requires
        sql.spec_bytes().len() <= isize::MAX,
    ensures
        r@.map_values(|s: &str| s@) == statements(sql@).filter(|s: Seq<char>| runnable(s)),
{
    let all = split_statements(sql);
    let ghost views = all@.map_values(|s: &str| s@);
    let ghost keep = |s: Seq<char>| runnable(s);
    let mut out: Vec<&'a str> = Vec::new();
    let mut k: usize = 0;
    assert(views.take(0).filter(keep) =~= Seq::<Seq<char>>::empty());
    while k < all.len()
        invariant
            views == all@.map_values(|s: &str| s@),
            keep == |s: Seq<char>| runnable(s),
            k <= all@.len(),
            out@.map_values(|s: &str| s@) == views.take(k as int).filter(keep),
        decreases all@.len() - k,
    {
        let q = all[k];
        let ghost before = out@.map_values(|s: &str| s@);
        let ghost t = views.take(k + 1);
        proof {
            reveal(Seq::filter);
            assert(t.drop_last() =~= views.take(k as int));
            assert(t.last() == q@);
        }
        if strip_leading_comments(q).unicode_len() > 0 {
            out.push(q);
            assert(out@.map_values(|s: &str| s@) =~= before.push(q@));
            assert(t.filter(keep) == t.drop_last().filter(keep).push(t.last())) by {
                reveal(Seq::filter);
            }
        } else {
            assert(t.filter(keep) == t.drop_last().filter(keep)) by {
                reveal(Seq::filter);
            }
        }
        k = k + 1;
    }
    assert(views.take(all@.len() as int) =~= views);
    out
}

/// What follows the short form of a statement that ran.
pub open spec fn ok_suffix() -> Seq<char> {
    seq![' ', '.', '.', '.', ' ', 'O', 'K']
}

/// What follows a number of changed rows.
pub open spec fn rows_affected_suffix() -> Seq<char> {
    seq![' ', 'r', 'o', 'w', 's', ' ', 'a', 'f', 'f', 'e', 'c', 't', 'e', 'd']
}

/// The line reported after a statement of a script ran: its short form, then
/// ` ... OK`, then the number of rows it changed in brackets when there are any.
pub open spec fn statement_report(query: Seq<char>, affected: nat) -> Seq<char> {
    let head = join(first_three(words(strip_comments(query))), space()) + ok_suffix();
    if affected == 0 {
        head
    } else {
        head + seq![' ', '('] + decimal(affected) + rows_affected_suffix() + seq![')']
    }
}

/// The line reported after a statement of a script ran.
pub fn statement_done_message(query: &str, affected: u64) -> (r: String)
    ensures
        r@ == statement_report(query@, affected as nat),
{
    let mut out = truncate_query(query);
    proof {
        reveal_strlit(" ... OK");
        reveal_strlit(" (");
        reveal_strlit(" rows affected)");
        assert(" ... OK"@ =~= ok_suffix());
        assert(" rows affected)"@ =~= rows_affected_suffix() + seq![')']);
        assert(" ("@ =~= seq![' ', '(']);
    }
    out.append(" ... OK");
    if affected != 0 {
        out.append(" (");
        push_decimal(&mut out, affected);
        out.append(" rows affected)");
        assert(out@ =~= statement_report(query@, affected as nat));
    }
    out
}

/// The line reported after a single writing statement ran: the number of
/// rows it changed, then ` rows affected`.
pub fn rows_affected_message(affected: u64) -> (r: String)
    ensures
        r@ == decimal(affected as nat) + rows_affected_suffix(),
{
    let mut out = String::new();
    push_decimal(&mut out, affected);
    proof {
        reveal_strlit(" rows affected");
        assert(" rows affected"@ =~= rows_affected_suffix());
    }
    out.append(" rows affected");
    out
}

/* Laws */

/// What is left after the leading comments starts with neither white space
/// nor a comment.
proof fn lemma_stripped_start(s: Seq<char>)
    ensures
        ({
            let r = strip_comments(s);
            r.len() == 0 || (!is_ws(r[0]) && !(r.len() >= 2 && r[0] == '-' && r[1] == '-')
                && !(r.len() >= 2 && r[0] == '/' && r[1] == '*'))
        }),
    decreases s.len(),
{
    let t = trim_start(s);
    lemma_trim_start_len(s);
    lemma_trim_start_head(s);
    if t.len() >= 2 && t[0] == '-' && t[1] == '-' {
        lemma_find_char_from(t, '\n', 0);
        if let Some(i) = find_char(t, '\n') {
            lemma_stripped_start(t.skip(i + 1));
        }
    } else if t.len() >= 2 && t[0] == '/' && t[1] == '*' {
        lemma_find_pair_from(t, '*', '/', 0);
        if let Some(i) = find_pair_from(t, '*', '/', 0) {
            lemma_stripped_start(t.skip(i + 2));
        }
    }
}

/// Text with no leading white space starts where trimming would start.
proof fn lemma_trim_start_head(s: Seq<char>)
    ensures
        trim_start(s).len() == 0 || !is_ws(trim_start(s)[0]),
        s.len() == 0 || !is_ws(s[0]) ==> trim_start(s) == s,
    decreases s.len(),
{
    if s.len() > 0 && is_ws(s[0]) {
        lemma_trim_start_head(s.drop_first());
    }
}

/// `r` is what `s` ends with.
pub open spec fn is_suffix(r: Seq<char>, s: Seq<char>) -> bool {
    r.len() <= s.len() && s.skip(s.len() - r.len()) == r
}

proof fn lemma_suffix_trans(a: Seq<char>, b: Seq<char>, c: Seq<char>)
    requires
        is_suffix(a, b),
        is_suffix(b, c),
    ensures
        is_suffix(a, c),
{
    assert(c.skip(c.len() - a.len()) =~= c.skip(c.len() - b.len()).skip(b.len() - a.len()));
}

proof fn lemma_trim_start_suffix(s: Seq<char>)
    ensures
        is_suffix(trim_start(s), s),
    decreases s.len(),
{
    if s.len() > 0 && is_ws(s[0]) {
        lemma_trim_start_suffix(s.drop_first());
        assert(is_suffix(s.drop_first(), s)) by {
            assert(s.skip(s.len() - s.drop_first().len()) =~= s.drop_first());
        }
        lemma_suffix_trans(trim_start(s), s.drop_first(), s);
    } else {
        assert(s.skip(0) =~= s);
    }
}

proof fn lemma_stripped_suffix(s: Seq<char>)
    ensures
        is_suffix(strip_comments(s), s),
    decreases s.len(),
{
    let t = trim_start(s);
    lemma_trim_start_len(s);
    lemma_trim_start_suffix(s);
    if t.len() >= 2 && t[0] == '-' && t[1] == '-' {
        lemma_find_char_from(t, '\n', 0);
        match find_char(t, '\n') {
            Some(i) => {
                lemma_stripped_suffix(t.skip(i + 1));
                assert(is_suffix(t.skip(i + 1), t)) by {
                    assert(t.skip(t.len() - t.skip(i + 1).len()) =~= t.skip(i + 1));
                }
                lemma_suffix_trans(strip_comments(t.skip(i + 1)), t.skip(i + 1), t);
                lemma_suffix_trans(strip_comments(s), t, s);
            },
            None => {
                assert(s.skip(s.len() as int) =~= Seq::<char>::empty());
            },
        }
    } else if t.len() >= 2 && t[0] == '/' && t[1] == '*' {
        lemma_find_pair_from(t, '*', '/', 0);
        match find_pair_from(t, '*', '/', 0) {
            Some(i) => {
                lemma_stripped_suffix(t.skip(i + 2));
                assert(is_suffix(t.skip(i + 2), t)) by {
                    assert(t.skip(t.len() - t.skip(i + 2).len()) =~= t.skip(i + 2));
                }
                lemma_suffix_trans(strip_comments(t.skip(i + 2)), t.skip(i + 2), t);
                lemma_suffix_trans(strip_comments(s), t, s);
            },
            None => {
                assert(s.skip(s.len() as int) =~= Seq::<char>::empty());
            },
        }
    }
}

/// What is left after the leading comments is the end of the text, and it
/// starts with neither white space nor a `--` or `/*` comment.
pub proof fn law_stripped_text_shape(s: Seq<char>)
    ensures
        is_suffix(strip_comments(s), s),
        ({
            let r = strip_comments(s);
            r.len() == 0 || (!is_ws(r[0]) && !(r.len() >= 2 && r[0] == '-' && r[1] == '-')
                && !(r.len() >= 2 && r[0] == '/' && r[1] == '*'))
        }),
{
    lemma_stripped_suffix(s);
    lemma_stripped_start(s);
}

proof fn lemma_pair_at(s: Seq<char>, a: char, b: char, k: int, at: int)
    requires
        0 <= k <= at,
        at + 1 < s.len(),
        s[at] == a && s[at + 1] == b,
        forall|m: int| k <= m < at ==> !(#[trigger] s[m] == a && s[m + 1] == b),
    ensures
        find_pair_from(s, a, b, k) == Some(at),
    decreases at - k,
{
    if k < at {
        lemma_pair_at(s, a, b, k + 1, at);
    }
}

/// A text that starts with neither white space nor a comment keeps all of
/// it.
pub proof fn law_text_without_comment_kept(s: Seq<char>)
    requires
        s.len() > 0,
        !is_ws(s[0]),
        !(s.len() >= 2 && s[0] == '-' && s[1] == '-'),
        !(s.len() >= 2 && s[0] == '/' && s[1] == '*'),
    ensures
        strip_comments(s) == s,
{
    lemma_trim_start_head(s);
}

/// A leading `--` comment goes up to and with its line break, and only
/// that: what follows is stripped in turn.
pub proof fn law_line_comment_stripped(c: Seq<char>, t: Seq<char>)
    requires
        !c.contains('\n'),
    ensures
        strip_comments(seq!['-', '-'] + c + seq!['\n'] + t) == strip_comments(t),
{
    let s = seq!['-', '-'] + c + seq!['\n'] + t;
    lemma_trim_start_head(s);
    lemma_find_char_from(s, '\n', 0);
    let at = c.len() as int + 2;
    assert(s[at] == '\n');
    assert forall|j: int| 0 <= j < at implies s[j] != '\n' by {
        if 2 <= j {
            assert(s[j] == c[j - 2]);
        }
    }
    assert(find_char(s, '\n') == Some(at));
    assert(s.skip(at + 1) =~= t);
}

/// A leading `/* */` comment goes up to and with its `*/`, and only that:
/// what follows is stripped in turn.
pub proof fn law_block_comment_stripped(c: Seq<char>, t: Seq<char>)
    requires
        !c.contains('*'),
        !c.contains('/'),
    ensures
        strip_comments(seq!['/', '*'] + c + seq!['*', '/'] + t) == strip_comments(t),
{
    let s = seq!['/', '*'] + c + seq!['*', '/'] + t;
    lemma_trim_start_head(s);
    let at = c.len() as int + 2;
    assert(s[at] == '*' && s[at + 1] == '/');
    assert forall|m: int| 0 <= m < at implies !(#[trigger] s[m] == '*' && s[m + 1] == '/') by {
        if 2 <= m {
            assert(s[m] == c[m - 2]);
        } else if m == 1 {
            if c.len() > 0 {
                assert(s[2] == c[0]);
            }
        }
    }
    lemma_pair_at(s, '*', '/', 0, at);
    assert(s.skip(at + 2) =~= t);
}

/// Stripping the leading comments a second time changes nothing.
pub proof fn law_strip_comments_idempotent(s: Seq<char>)
    ensures
        strip_comments(strip_comments(s)) == strip_comments(s),
{
    let r = strip_comments(s);
    lemma_stripped_start(s);
    lemma_trim_start_head(r);
}

/// Leading comments do not change whether a statement reads.
pub proof fn law_read_ignores_leading_comments(sql: Seq<char>)
    ensures
        is_read(strip_comments(sql)) == is_read(sql),
{
    law_strip_comments_idempotent(sql);
}

/// The short form of a statement splits back into at most three words: the
/// first words of the statement after its leading comments.
pub proof fn law_truncate_keeps_first_words(sql: Seq<char>)
    ensures
        words(join(first_three(words(strip_comments(sql))), space())) == first_three(words(strip_comments(sql))),
        first_three(words(strip_comments(sql))).len() <= 3,
{
    let ws = words(strip_comments(sql));
    lemma_words_are_words(strip_comments(sql), 0);
    let f = first_three(ws);
    assert forall|k: int| 0 <= k < f.len() implies is_word(#[trigger] f[k]) by {
        assert(f[k] == ws[k]);
    }
    law_words_of_joined_words(f);
}

/// The short form of a statement holds its first three words after its
/// leading comments, or all of them when it has fewer, in their order.
pub proof fn law_short_form_is_first_three_words(sql: Seq<char>)
    ensures
        ({
            let ws = words(strip_comments(sql));
            let short = words(join(first_three(ws), space()));
            &&& short.len() == if ws.len() < 3 { ws.len() } else { 3 }
            &&& forall|k: int| 0 <= k < short.len() ==> short[k] == ws[k]
        }),
{
    law_truncate_keeps_first_words(sql);
}

/// The line reported for a statement of a script is its short form and
/// ` ... OK`; when it changed rows, their number follows in brackets, as
/// ` (n rows affected)`.
pub proof fn law_statement_report(sql: Seq<char>, n: nat)
    ensures
        statement_report(sql, 0) == join(first_three(words(strip_comments(sql))), space()) + " ... OK"@,
        n > 0 ==> statement_report(sql, n) == statement_report(sql, 0) + " ("@ + decimal(n) + " rows affected)"@,
{
    reveal_strlit(" ... OK");
    reveal_strlit(" (");
    reveal_strlit(" rows affected)");
    assert(" ... OK"@ =~= ok_suffix());
    if n > 0 {
        let head = join(first_three(words(strip_comments(sql))), space()) + ok_suffix();
        assert(statement_report(sql, n) =~= head + " ("@ + decimal(n) + " rows affected)"@);
    }
}

/// Trimmed text that is not empty begins and ends with something other
/// than white space.
proof fn lemma_trim_ends(x: Seq<char>)
    ensures
        trim(x).len() > 0 ==> !is_ws(trim(x)[0]) && !is_ws(trim(x).last()),
{
    let t = trim_start(x);
    lemma_trim_start_head(x);
    lemma_trim_end_prefix(t);
}

/// Trimming the end keeps a prefix, and what is left does not end in white
/// space.
proof fn lemma_trim_end_prefix(t: Seq<char>)
    ensures
        trim_end(t).len() <= t.len(),
        trim_end(t) == t.take(trim_end(t).len() as int),
        trim_end(t).len() > 0 ==> !is_ws(trim_end(t).last()),
    decreases t.len(),
{
    if t.len() > 0 && is_ws(t.last()) {
        lemma_trim_end_prefix(t.drop_last());
        assert(t.drop_last().take(trim_end(t).len() as int) =~= t.take(trim_end(t).len() as int));
    } else {
        assert(t.take(t.len() as int) =~= t);
    }
}

/// Every statement of a script holds something, and begins and ends with
/// something other than white space.
pub proof fn law_statements_trimmed(sql: Seq<char>)
    ensures
        forall|i: int| 0 <= i < statements(sql).len() ==> {
            let st = #[trigger] statements(sql)[i];
            st.len() > 0 && !is_ws(st[0]) && !is_ws(st.last())
        },
{
    let b = encode_utf8(sql);
    let pieces = scan(b, 0, 0, 0).map_values(|r: (int, int)| trim(decode_utf8(b.subrange(r.0, r.1))));
    let keep = |s: Seq<char>| s.len() > 0;
    pieces.filter_lemma(keep);
    assert forall|i: int| 0 <= i < statements(sql).len() implies {
        let st = #[trigger] statements(sql)[i];
        st.len() > 0 && !is_ws(st[0]) && !is_ws(st.last())
    } by {
        let st = statements(sql)[i];
        assert(pieces.filter(keep)[i] == st);
        assert(pieces.filter(keep).contains(st));
        pieces.lemma_filter_contains_rev(keep, st);
        let j = choose|j: int| 0 <= j < pieces.len() && pieces[j] == st;
        let rg = scan(b, 0, 0, 0)[j];
        lemma_trim_ends(decode_utf8(b.subrange(rg.0, rg.1)));
    }
}

/// A script with no quote, double quote, dollar sign, `--` or `/*`, and no
/// `BEGIN` or `END` word.
pub open spec fn plain_script(b: Seq<u8>) -> bool {
    forall|k: int| 0 <= k < b.len() ==> {
        &&& #[trigger] b[k] != 39 && b[k] != 34 && b[k] != 36
        &&& !(b[k] == 45 && k + 1 < b.len() && b[k + 1] == 45)
        &&& !(b[k] == 47 && k + 1 < b.len() && b[k + 1] == 42)
        &&& !keyword_at_bytes(b, k, begin_bytes())
        &&& !keyword_at_bytes(b, k, end_bytes())
    }
}

/// The byte ranges between the semicolons of `b` from `i` on, the current
/// one starting at `start`.
pub open spec fn semicolon_pieces(b: Seq<u8>, i: int, start: int) -> Seq<(int, int)>
    decreases b.len() - i,
{
    if i < 0 || i >= b.len() {
        seq![(start, b.len() as int)]
    } else if b[i] == 59 {
        seq![(start, i)] + semicolon_pieces(b, i + 1, i + 1)
    } else {
        semicolon_pieces(b, i + 1, start)
    }
}

proof fn lemma_plain_scan(b: Seq<u8>, i: int, start: int)
    requires
        plain_script(b),
        0 <= i,
    ensures
        scan(b, i, start, 0) == semicolon_pieces(b, i, start),
    decreases b.len() - i,
{
    if i < b.len() {
        assert(b[i] != 39 && b[i] != 34 && b[i] != 36);
        lemma_plain_scan(b, i + 1, if b[i] == 59 { i + 1 } else { start });
    }
}

/// A script with no quotes, dollar signs, comments or `BEGIN`/`END` words
/// splits exactly at its semicolons: its statements are the trimmed pieces
/// between them, empty ones left out.
pub proof fn law_plain_script_splits_at_semicolons(sql: Seq<char>)
    requires
        plain_script(encode_utf8(sql)),
    ensures
        statements(sql) == semicolon_pieces(encode_utf8(sql), 0, 0).map_values(
            |r: (int, int)| trim(decode_utf8(encode_utf8(sql).subrange(r.0, r.1))),
        ).filter(|s: Seq<char>| s.len() > 0),
{
    lemma_plain_scan(encode_utf8(sql), 0, 0);
}

/// The scan of bytes with no semicolon finds one statement, the rest of the
/// text from where the current one started.
proof fn lemma_scan_without_semicolon(b: Seq<u8>, i: int, start: int, depth: int)
    requires
        0 <= i,
        forall|k: int| 0 <= k < b.len() ==> b[k] != 59,
    ensures
        scan(b, i, start, depth) == seq![(start, b.len() as int)],
    decreases b.len() - i,
{
    if i < b.len() {
        lemma_step_advances(b, i, start, depth);
        let (i2, s2, d2, out) = scan_step(b, i, start, depth);
        let next = if i2 > b.len() { b.len() as int } else { i2 };
        assert(out is None && s2 == start);
        lemma_scan_without_semicolon(b, next, s2, d2);
    }
}

/// A script without a semicolon is one statement, the whole text trimmed,
/// unless that is empty.
pub proof fn law_script_without_semicolon(sql: Seq<char>)
    requires
        !sql.contains(';'),
    ensures
        statements(sql) == if trim(sql).len() > 0 { seq![trim(sql)] } else { Seq::<Seq<char>>::empty() },
{
    let b = encode_utf8(sql);
    lemma_encode_no_semicolon(sql);
    lemma_scan_without_semicolon(b, 0, 0, 0);
    assert(b.subrange(0, b.len() as int) =~= b);
    let x = trim(decode_utf8(b));
    let pieces = seq![(0int, b.len() as int)].map_values(|r: (int, int)| trim(decode_utf8(b.subrange(r.0, r.1))));
    assert(pieces =~= seq![x]);
    let keep = |s: Seq<char>| s.len() > 0;
    assert(seq![x].drop_last() =~= Seq::<Seq<char>>::empty());
    assert(seq![x].filter(keep) == Seq::<Seq<char>>::empty().filter(keep) + (if keep(x) { seq![x] } else { Seq::<Seq<char>>::empty() })) by {
        reveal(Seq::filter);
    }
    assert(Seq::<Seq<char>>::empty().filter(keep) =~= Seq::<Seq<char>>::empty()) by {
        reveal(Seq::filter);
    }
    assert(seq![x].filter(keep) =~= if trim(sql).len() > 0 { seq![trim(sql)] } else { Seq::<Seq<char>>::empty() });
}

/// No byte of the encoding of a scalar other than `;` is a semicolon.
proof fn lemma_scalar_no_semicolon(c: u32)
    requires
        is_scalar(c),
        c != 59,
    ensures
        forall|k: int| 0 <= k < encode_scalar(c).len() ==> encode_scalar(c)[k] != 59,
{
    if has_width_1_encoding(c) {
        assert(leading_byte_width_1(c) != 59) by (bit_vector)
            requires
                c <= 0x7f,
                c != 59,
        ;
    } else {
        assert(leading_byte_width_2(c) != 59) by (bit_vector);
        assert(leading_byte_width_3(c) != 59) by (bit_vector);
        assert(leading_byte_width_4(c) != 59) by (bit_vector);
        assert(last_continuation_byte(c) != 59) by (bit_vector);
        assert(second_last_continuation_byte(c) != 59) by (bit_vector);
        assert(third_last_continuation_byte(c) != 59) by (bit_vector);
    }
}

/// Text without `;` encodes to bytes without a semicolon.
proof fn lemma_encode_no_semicolon(chars: Seq<char>)
    requires
        !chars.contains(';'),
    ensures
        forall|k: int| 0 <= k < encode_utf8(chars).len() ==> encode_utf8(chars)[k] != 59,
    decreases chars.len(),
{
    if chars.len() > 0 {
        let c = chars[0];
        assert(c != ';');
        let rest = chars.drop_first();
        assert(!rest.contains(';')) by {
            if rest.contains(';') {
                let k = choose|k: int| 0 <= k < rest.len() && rest[k] == ';';
                assert(chars[k + 1] == ';');
            }
        }
        lemma_encode_no_semicolon(rest);
        char_is_scalar(c);
        char_u32_cast(c, c as u32);
        char_u32_cast(';', 59);
        lemma_scalar_no_semicolon(c as u32);
        let e = encode_scalar(c as u32);
        assert forall|k: int| 0 <= k < encode_utf8(chars).len() implies encode_utf8(chars)[k] != 59 by {
            if k < e.len() {
                assert(encode_utf8(chars)[k] == e[k]);
            } else {
                assert(encode_utf8(chars)[k] == encode_utf8(rest)[k - e.len()]);
            }
        }
    }
}

/// No byte of the encoding of a scalar other than the ASCII character `t`
/// is `t`.
proof fn lemma_scalar_avoids(c: u32, t: u8)
    requires
        is_scalar(c),
        t < 128,
        c != t as u32,
    ensures
        forall|k: int| 0 <= k < encode_scalar(c).len() ==> encode_scalar(c)[k] != t,
{
    if has_width_1_encoding(c) {
        assert(leading_byte_width_1(c) != t) by (bit_vector)
            requires
                c <= 0x7f,
                c != t as u32,
                t < 128,
        ;
    } else {
        assert(leading_byte_width_2(c) != t) by (bit_vector)
            requires t < 128;
        assert(leading_byte_width_3(c) != t) by (bit_vector)
            requires t < 128;
        assert(leading_byte_width_4(c) != t) by (bit_vector)
            requires t < 128;
        assert(last_continuation_byte(c) != t) by (bit_vector)
            requires t < 128;
        assert(second_last_continuation_byte(c) != t) by (bit_vector)
            requires t < 128;
        assert(third_last_continuation_byte(c) != t) by (bit_vector)
            requires t < 128;
    }
}

/// Text without the ASCII character `t` encodes to bytes without it.
proof fn lemma_encode_avoids(chars: Seq<char>, t: char)
    requires
        (t as u32) < 128,
        !chars.contains(t),
    ensures
        forall|k: int| 0 <= k < encode_utf8(chars).len() ==> encode_utf8(chars)[k] != t as u8,
    decreases chars.len(),
{
    if chars.len() > 0 {
        let c = chars[0];
        assert(c != t);
        let rest = chars.drop_first();
        assert(!rest.contains(t)) by {
            if rest.contains(t) {
                let k = choose|k: int| 0 <= k < rest.len() && rest[k] == t;
                assert(chars[k + 1] == t);
            }
        }
        lemma_encode_avoids(rest, t);
        char_is_scalar(c);
        char_u32_cast(c, c as u32);
        char_u32_cast(t, t as u32);
        assert((t as u8) as u32 == t as u32);
        lemma_scalar_avoids(c as u32, t as u8);
        let e = encode_scalar(c as u32);
        assert forall|k: int| 0 <= k < encode_utf8(chars).len() implies encode_utf8(chars)[k] != t as u8 by {
            if k < e.len() {
                assert(encode_utf8(chars)[k] == e[k]);
            } else {
                assert(encode_utf8(chars)[k] == encode_utf8(rest)[k - e.len()]);
            }
        }
    }
}

/// The encoding of joined texts is the joined encodings.
proof fn lemma_encode_concat(a: Seq<char>, b: Seq<char>)
    ensures
        encode_utf8(a + b) == encode_utf8(a) + encode_utf8(b),
    decreases a.len(),
{
    if a.len() > 0 {
        assert((a + b).drop_first() =~= a.drop_first() + b);
        assert((a + b)[0] == a[0]);
        lemma_encode_concat(a.drop_first(), b);
        assert(encode_utf8(a + b) =~= encode_utf8(a) + encode_utf8(b));
    } else {
        assert(a + b =~= b);
        assert(encode_utf8(a) =~= Seq::<u8>::empty());
        assert(encode_utf8(a) + encode_utf8(b) =~= encode_utf8(b));
    }
}

/// ASCII text encodes to one byte per character, the character's code.
proof fn lemma_encode_ascii(cs: Seq<char>)
    requires
        forall|k: int| 0 <= k < cs.len() ==> (#[trigger] cs[k] as u32) < 128,
    ensures
        encode_utf8(cs).len() == cs.len(),
        forall|k: int| 0 <= k < cs.len() ==> encode_utf8(cs)[k] == (cs[k] as u32) as u8,
    decreases cs.len(),
{
    if cs.len() > 0 {
        let c = cs[0] as u32;
        assert(c < 128);
        assert(leading_byte_width_1(c) == c as u8) by (bit_vector)
            requires
                c < 128,
        ;
        assert(encode_scalar(c) =~= seq![c as u8]);
        let rest = cs.drop_first();
        assert forall|k: int| 0 <= k < rest.len() implies (#[trigger] rest[k] as u32) < 128 by {
            assert(rest[k] == cs[k + 1]);
        }
        lemma_encode_ascii(rest);
        assert(encode_utf8(cs) == encode_scalar(c) + encode_utf8(rest));
        assert forall|k: int| 0 <= k < cs.len() implies encode_utf8(cs)[k] == (cs[k] as u32) as u8 by {
            if k == 0 {
                assert(encode_utf8(cs)[0] == encode_scalar(c)[0]);
            } else {
                assert(encode_utf8(cs)[k] == encode_utf8(rest)[k - 1]);
                assert(rest[k - 1] == cs[k]);
            }
        }
    }
}

/// A byte that opens nothing and is not the start of `BEGIN` or `END` is
/// passed over by the scan.
proof fn lemma_scan_passes(b: Seq<u8>, i: int, start: int, depth: int)
    requires
        0 <= i < b.len(),
        b[i] != 36 && b[i] != 39 && b[i] != 34 && b[i] != 45 && b[i] != 47 && b[i] != 59,
        ascii_lower(b[i]) != 98,
        ascii_lower(b[i]) != 101,
    ensures
        scan(b, i, start, depth) == scan(b, i + 1, start, depth),
{
    assert(!keyword_at_bytes(b, i, begin_bytes())) by {
        if keyword_at_bytes(b, i, begin_bytes()) {
            assert(ascii_lower(b[i + 0]) == ascii_lower(begin_bytes()[0]));
        }
    }
    assert(!keyword_at_bytes(b, i, end_bytes())) by {
        if keyword_at_bytes(b, i, end_bytes()) {
            assert(ascii_lower(b[i + 0]) == ascii_lower(end_bytes()[0]));
        }
    }
    lemma_step_advances(b, i, start, depth);
}

/// The search for the closing tag of a dollar quote that opened at `ts`,
/// `tl` bytes long, stops at the first later copy of it when no `$` stands
/// between.
proof fn lemma_close_at(b: Seq<u8>, k: int, ts: int, tl: int, close: int)
    requires
        0 <= ts,
        tl > 0,
        ts + tl <= b.len(),
        b[ts] == 36,
        0 <= k <= close,
        close + tl <= b.len(),
        b.subrange(close, close + tl) == b.subrange(ts, ts + tl),
        forall|m: int| k <= m < close ==> b[m] != 36,
    ensures
        close_tag(b, k, ts, tl) == close + tl - 1,
    decreases close - k,
{
    if k < close {
        assert(b.subrange(k, k + tl)[0] != b.subrange(ts, ts + tl)[0]);
        lemma_close_at(b, k + 1, ts, tl, close);
    }
}

/// The search for `q` stops at its first occurrence.
proof fn lemma_skip_to_at(b: Seq<u8>, k: int, q: u8, at: int)
    requires
        0 <= k <= at < b.len(),
        b[at] == q,
        forall|m: int| k <= m < at ==> b[m] != q,
    ensures
        skip_to(b, k, q) == at,
    decreases at - k,
{
    if k < at {
        lemma_skip_to_at(b, k + 1, q, at);
    }
}

/// The search for the end of a block comment stops at the first `*/`.
proof fn lemma_block_end_at(b: Seq<u8>, k: int, at: int)
    requires
        0 <= k <= at,
        at + 1 < b.len(),
        b[at] == 42 && b[at + 1] == 47,
        forall|m: int| k <= m < at ==> b[m] != 42,
    ensures
        block_end(b, k) == at,
    decreases at - k,
{
    if k < at {
        lemma_block_end_at(b, k + 1, at);
    }
}

/// Inside a `BEGIN` block a semicolon, like a digit or a space, is passed
/// over.
proof fn lemma_scan_passes_in_block(b: Seq<u8>, i: int, start: int, depth: int)
    requires
        0 <= i < b.len(),
        depth > 0,
        b[i] == 59 || b[i] == 32 || (48 <= b[i] && b[i] <= 57),
    ensures
        scan(b, i, start, depth) == scan(b, i + 1, start, depth),
{
    assert(!keyword_at_bytes(b, i, begin_bytes())) by {
        if keyword_at_bytes(b, i, begin_bytes()) {
            assert(ascii_lower(b[i + 0]) == ascii_lower(begin_bytes()[0]));
        }
    }
    assert(!keyword_at_bytes(b, i, end_bytes())) by {
        if keyword_at_bytes(b, i, end_bytes()) {
            assert(ascii_lower(b[i + 0]) == ascii_lower(end_bytes()[0]));
        }
    }
    lemma_step_advances(b, i, start, depth);
}

/// A script whose scan finds one range, and that begins and ends with
/// something other than white space, is one statement: itself.
proof fn lemma_one_statement(sql: Seq<char>)
    requires
        scan(encode_utf8(sql), 0, 0, 0) == seq![(0int, encode_utf8(sql).len() as int)],
        sql.len() > 0,
        !is_ws(sql[0]),
        !is_ws(sql[sql.len() - 1]),
    ensures
        statements(sql) == seq![sql],
{
    let b = encode_utf8(sql);
    assert(b.subrange(0, b.len() as int) =~= b);
    lemma_trim_start_head(sql);
    assert(sql.last() == sql[sql.len() - 1]);
    assert(trim_end(sql) == sql);
    let pieces = scan(b, 0, 0, 0).map_values(|r: (int, int)| trim(decode_utf8(b.subrange(r.0, r.1))));
    assert(pieces =~= seq![sql]);
    let keep = |x: Seq<char>| x.len() > 0;
    assert(seq![sql].filter(keep) =~= seq![sql]) by {
        reveal(Seq::filter);
        assert(seq![sql].drop_last() =~= Seq::<Seq<char>>::empty());
        assert(Seq::<Seq<char>>::empty().filter(keep) =~= Seq::<Seq<char>>::empty());
    }
}

/// The encoding of `pre + s + post` for ASCII `pre` and `post`.
proof fn lemma_encode_framed(pre: Seq<char>, s: Seq<char>, post: Seq<char>)
    requires
        forall|k: int| 0 <= k < pre.len() ==> (#[trigger] pre[k] as u32) < 128,
        forall|k: int| 0 <= k < post.len() ==> (#[trigger] post[k] as u32) < 128,
    ensures
        ({
            let b = encode_utf8(pre + s + post);
            let m = encode_utf8(s).len() as int;
            &&& b.len() == pre.len() + m + post.len()
            &&& forall|k: int| 0 <= k < pre.len() ==> b[k] == (pre[k] as u32) as u8
            &&& forall|k: int| 0 <= k < m ==> b[pre.len() + k] == encode_utf8(s)[k]
            &&& forall|k: int| 0 <= k < post.len() ==> b[pre.len() + m + k] == (post[k] as u32) as u8
        }),
{
    lemma_encode_concat(pre + s, post);
    lemma_encode_concat(pre, s);
    lemma_encode_ascii(pre);
    lemma_encode_ascii(post);
}

/// A `;` between `$$` and the next `$$` is inside a dollar-quoted string
/// and ends no statement: with any text `s` without a `$` quoted so, the
/// script `X $$ s $$ Y` is a single statement, the whole script.
pub proof fn law_empty_dollar_quote_keeps_semicolons(s: Seq<char>)
    requires
        !s.contains('$'),
    ensures
        ({
            let sql = seq!['X', ' ', '$', '$', ' '] + s + seq![' ', '$', '$', ' ', 'Y'];
            statements(sql) == seq![sql]
        }),
{
    let pre = seq!['X', ' ', '$', '$', ' '];
    let post = seq![' ', '$', '$', ' ', 'Y'];
    let sql = pre + s + post;
    lemma_encode_framed(pre, s, post);
    lemma_encode_avoids(s, '$');
    let m = encode_utf8(s).len() as int;
    let b = encode_utf8(sql);
    assert(b[0] == 88 && b[1] == 32 && b[2] == 36 && b[3] == 36 && b[4] == 32);
    assert(b[m + 5] == 32 && b[m + 6] == 36 && b[m + 7] == 36 && b[m + 8] == 32 && b[m + 9] == 89);
    assert forall|k: int| 4 <= k < m + 6 implies b[k] != 36 by {
        if 5 <= k < m + 5 {
            assert(b[5 + (k - 5)] == encode_utf8(s)[k - 5]);
        }
    }
    lemma_scan_passes(b, 0, 0, 0);
    lemma_scan_passes(b, 1, 0, 0);
    assert(word_run_end(b, 3) == 3);
    assert(b.subrange(m + 6, m + 8) =~= b.subrange(2, 4));
    lemma_close_at(b, 4, 2, 2, m + 6);
    lemma_step_advances(b, 2, 0, 0);
    assert(scan(b, 2, 0, 0) == scan(b, m + 8, 0, 0));
    lemma_scan_passes(b, m + 8, 0, 0);
    lemma_scan_passes(b, m + 9, 0, 0);
    assert(sql[0] == 'X' && sql[sql.len() - 1] == 'Y');
    lemma_one_statement(sql);
}

/// The same with a tag: the script `X $q$ s $q$ Y` is a single statement
/// for any `s` without a `$`.
pub proof fn law_tagged_dollar_quote_keeps_semicolons(s: Seq<char>)
    requires
        !s.contains('$'),
    ensures
        ({
            let sql = seq!['X', ' ', '$', 'q', '$', ' '] + s + seq![' ', '$', 'q', '$', ' ', 'Y'];
            statements(sql) == seq![sql]
        }),
{
    let pre = seq!['X', ' ', '$', 'q', '$', ' '];
    let post = seq![' ', '$', 'q', '$', ' ', 'Y'];
    let sql = pre + s + post;
    lemma_encode_framed(pre, s, post);
    lemma_encode_avoids(s, '$');
    let m = encode_utf8(s).len() as int;
    let b = encode_utf8(sql);
    assert(b[0] == 88 && b[1] == 32 && b[2] == 36 && b[3] == 113 && b[4] == 36 && b[5] == 32);
    assert(b[m + 6] == 32 && b[m + 7] == 36 && b[m + 8] == 113 && b[m + 9] == 36 && b[m + 10] == 32 && b[m + 11] == 89);
    assert forall|k: int| 5 <= k < m + 7 implies b[k] != 36 by {
        if 6 <= k < m + 6 {
            assert(b[6 + (k - 6)] == encode_utf8(s)[k - 6]);
        }
    }
    lemma_scan_passes(b, 0, 0, 0);
    lemma_scan_passes(b, 1, 0, 0);
    assert(word_run_end(b, 4) == 4);
    assert(word_run_end(b, 3) == 4);
    assert(b.subrange(m + 7, m + 10) =~= b.subrange(2, 5));
    lemma_close_at(b, 5, 2, 3, m + 7);
    lemma_step_advances(b, 2, 0, 0);
    assert(scan(b, 2, 0, 0) == scan(b, m + 10, 0, 0));
    lemma_scan_passes(b, m + 10, 0, 0);
    lemma_scan_passes(b, m + 11, 0, 0);
    assert(sql[0] == 'X' && sql[sql.len() - 1] == 'Y');
    lemma_one_statement(sql);
}

/// A `;` inside single quotes ends no statement: the script `X 's' Y` is a
/// single statement for any `s` without a `'`.
pub proof fn law_quotes_keep_semicolons(s: Seq<char>)
    requires
        !s.contains('\''),
    ensures
        ({
            let sql = seq!['X', ' ', '\''] + s + seq!['\'', ' ', 'Y'];
            statements(sql) == seq![sql]
        }),
{
    let pre = seq!['X', ' ', '\''];
    let post = seq!['\'', ' ', 'Y'];
    let sql = pre + s + post;
    lemma_encode_framed(pre, s, post);
    lemma_encode_avoids(s, '\'');
    let m = encode_utf8(s).len() as int;
    let b = encode_utf8(sql);
    assert(b[0] == 88 && b[1] == 32 && b[2] == 39);
    assert(b[m + 3] == 39 && b[m + 4] == 32 && b[m + 5] == 89);
    assert forall|k: int| 3 <= k < m + 3 implies b[k] != 39 by {
        assert(b[3 + (k - 3)] == encode_utf8(s)[k - 3]);
    }
    lemma_scan_passes(b, 0, 0, 0);
    lemma_scan_passes(b, 1, 0, 0);
    lemma_skip_to_at(b, 3, 39, m + 3);
    lemma_step_advances(b, 2, 0, 0);
    assert(scan(b, 2, 0, 0) == scan(b, m + 4, 0, 0));
    lemma_scan_passes(b, m + 4, 0, 0);
    lemma_scan_passes(b, m + 5, 0, 0);
    assert(sql[0] == 'X' && sql[sql.len() - 1] == 'Y');
    lemma_one_statement(sql);
}

/// A `;` inside double quotes ends no statement: the script `X "s" Y` is a
/// single statement for any `s` without a `"`.
pub proof fn law_double_quotes_keep_semicolons(s: Seq<char>)
    requires
        !s.contains('"'),
    ensures
        ({
            let sql = seq!['X', ' ', '"'] + s + seq!['"', ' ', 'Y'];
            statements(sql) == seq![sql]
        }),
{
    let pre = seq!['X', ' ', '"'];
    let post = seq!['"', ' ', 'Y'];
    let sql = pre + s + post;
    lemma_encode_framed(pre, s, post);
    lemma_encode_avoids(s, '"');
    let m = encode_utf8(s).len() as int;
    let b = encode_utf8(sql);
    assert(b[0] == 88 && b[1] == 32 && b[2] == 34);
    assert(b[m + 3] == 34 && b[m + 4] == 32 && b[m + 5] == 89);
    assert forall|k: int| 3 <= k < m + 3 implies b[k] != 34 by {
        assert(b[3 + (k - 3)] == encode_utf8(s)[k - 3]);
    }
    lemma_scan_passes(b, 0, 0, 0);
    lemma_scan_passes(b, 1, 0, 0);
    lemma_skip_to_at(b, 3, 34, m + 3);
    lemma_step_advances(b, 2, 0, 0);
    assert(scan(b, 2, 0, 0) == scan(b, m + 4, 0, 0));
    lemma_scan_passes(b, m + 4, 0, 0);
    lemma_scan_passes(b, m + 5, 0, 0);
    assert(sql[0] == 'X' && sql[sql.len() - 1] == 'Y');
    lemma_one_statement(sql);
}

/// A `;` in a line comment ends no statement: the script `X --s` newline
/// `Y` is a single statement for any `s` without a line break.
pub proof fn law_line_comment_keeps_semicolons(s: Seq<char>)
    requires
        !s.contains('\n'),
    ensures
        ({
            let sql = seq!['X', ' ', '-', '-'] + s + seq!['\n', 'Y'];
            statements(sql) == seq![sql]
        }),
{
    let pre = seq!['X', ' ', '-', '-'];
    let post = seq!['\n', 'Y'];
    let sql = pre + s + post;
    lemma_encode_framed(pre, s, post);
    lemma_encode_avoids(s, '\n');
    let m = encode_utf8(s).len() as int;
    let b = encode_utf8(sql);
    assert(b[0] == 88 && b[1] == 32 && b[2] == 45 && b[3] == 45);
    assert(b[m + 4] == 10 && b[m + 5] == 89);
    assert forall|k: int| 2 <= k < m + 4 implies b[k] != 10 by {
        if 4 <= k {
            assert(b[4 + (k - 4)] == encode_utf8(s)[k - 4]);
        }
    }
    lemma_scan_passes(b, 0, 0, 0);
    lemma_scan_passes(b, 1, 0, 0);
    lemma_skip_to_at(b, 2, 10, m + 4);
    lemma_step_advances(b, 2, 0, 0);
    assert(scan(b, 2, 0, 0) == scan(b, m + 5, 0, 0));
    lemma_scan_passes(b, m + 5, 0, 0);
    assert(sql[0] == 'X' && sql[sql.len() - 1] == 'Y');
    lemma_one_statement(sql);
}

/// A `;` in a block comment ends no statement: the script `X /*s*/ Y` is a
/// single statement for any `s` without a `*`.
pub proof fn law_block_comment_keeps_semicolons(s: Seq<char>)
    requires
        !s.contains('*'),
    ensures
        ({
            let sql = seq!['X', ' ', '/', '*'] + s + seq!['*', '/', ' ', 'Y'];
            statements(sql) == seq![sql]
        }),
{
    let pre = seq!['X', ' ', '/', '*'];
    let post = seq!['*', '/', ' ', 'Y'];
    let sql = pre + s + post;
    lemma_encode_framed(pre, s, post);
    lemma_encode_avoids(s, '*');
    let m = encode_utf8(s).len() as int;
    let b = encode_utf8(sql);
    assert(b[0] == 88 && b[1] == 32 && b[2] == 47 && b[3] == 42);
    assert(b[m + 4] == 42 && b[m + 5] == 47 && b[m + 6] == 32 && b[m + 7] == 89);
    assert forall|k: int| 4 <= k < m + 4 implies b[k] != 42 by {
        assert(b[4 + (k - 4)] == encode_utf8(s)[k - 4]);
    }
    lemma_scan_passes(b, 0, 0, 0);
    lemma_scan_passes(b, 1, 0, 0);
    lemma_block_end_at(b, 4, m + 4);
    lemma_step_advances(b, 2, 0, 0);
    assert(scan(b, 2, 0, 0) == scan(b, m + 6, 0, 0));
    lemma_scan_passes(b, m + 6, 0, 0);
    lemma_scan_passes(b, m + 7, 0, 0);
    assert(sql[0] == 'X' && sql[sql.len() - 1] == 'Y');
    lemma_one_statement(sql);
}


/// Inside a `BEGIN` block, a run of semicolons, spaces and digits is passed
/// over.
proof fn lemma_block_run(b: Seq<u8>, i: int, j: int, start: int, depth: int)
    requires
        0 <= i <= j <= b.len(),
        depth > 0,
        forall|k: int| i <= k < j ==> #[trigger] b[k] == 59 || b[k] == 32 || (48 <= b[k] && b[k] <= 57),
    ensures
        scan(b, i, start, depth) == scan(b, j, start, depth),
    decreases j - i,
{
    if i < j {
        lemma_scan_passes_in_block(b, i, start, depth);
        lemma_block_run(b, i + 1, j, start, depth);
    }
}

/// A `;` between `BEGIN` and its `END` ends no statement: the script
/// `X BEGIN s END Y`, with `s` made of semicolons, spaces and digits, is a
/// single statement.
pub proof fn law_begin_end_block_keeps_semicolons(s: Seq<char>)
    requires
        forall|k: int| 0 <= k < s.len() ==> {
            let c = #[trigger] s[k] as u32;
            c == 59 || c == 32 || (48 <= c && c <= 57)
        },
    ensures
        ({
            let sql = seq!['X', ' ', 'B', 'E', 'G', 'I', 'N', ' '] + s + seq![' ', 'E', 'N', 'D', ' ', 'Y'];
            statements(sql) == seq![sql]
        }),
{
    let pre = seq!['X', ' ', 'B', 'E', 'G', 'I', 'N', ' '];
    let post = seq![' ', 'E', 'N', 'D', ' ', 'Y'];
    let sql = pre + s + post;
    let m = s.len() as int;
    assert forall|k: int| 0 <= k < sql.len() implies (#[trigger] sql[k] as u32) < 128 by {
        if 8 <= k < 8 + m {
            assert(sql[k] == s[k - 8]);
        }
    }
    lemma_encode_ascii(sql);
    let b = encode_utf8(sql);
    assert(b.len() == m + 14);
    assert(b[0] == 88 && b[1] == 32 && b[2] == 66 && b[3] == 69 && b[4] == 71 && b[5] == 73
        && b[6] == 78 && b[7] == 32);
    assert(b[m + 8] == 32 && b[m + 9] == 69 && b[m + 10] == 78 && b[m + 11] == 68
        && b[m + 12] == 32 && b[m + 13] == 89);
    assert forall|k: int| 8 <= k < m + 8 implies #[trigger] b[k] == 59 || b[k] == 32 || (48 <= b[k] && b[k] <= 57) by {
        assert(sql[k] == s[k - 8]);
        assert(b[k] == (sql[k] as u32) as u8);
    }
    lemma_scan_passes(b, 0, 0, 0);
    lemma_scan_passes(b, 1, 0, 0);
    assert(keyword_at_bytes(b, 2, begin_bytes()));
    lemma_step_advances(b, 2, 0, 0);
    assert(scan(b, 2, 0, 0) == scan(b, 7, 0, 1));
    lemma_scan_passes_in_block(b, 7, 0, 1);
    lemma_block_run(b, 8, m + 8, 0, 1);
    lemma_scan_passes_in_block(b, m + 8, 0, 1);
    assert(!keyword_at_bytes(b, m + 9, begin_bytes())) by {
        assert(ascii_lower(b[m + 9 + 0]) != ascii_lower(begin_bytes()[0]));
    }
    assert(keyword_at_bytes(b, m + 9, end_bytes()));
    lemma_step_advances(b, m + 9, 0, 1);
    assert(scan(b, m + 9, 0, 1) == scan(b, m + 12, 0, 0));
    lemma_scan_passes(b, m + 12, 0, 0);
    lemma_scan_passes(b, m + 13, 0, 0);
    assert(sql[0] == 'X' && sql[sql.len() - 1] == 'Y');
    lemma_one_statement(sql);
}

/// A word without parentheses.
pub open spec fn plain_word(w: Seq<char>) -> bool {
    !w.contains('(') && !w.contains(')')
}

/// The verdict on a `WITH` statement whose words hold no parentheses, read
/// from its end: its last `SELECT` makes it a read, its last `INSERT`,
/// `UPDATE`, `DELETE` or `MERGE` a write, whichever comes last; `read` when
/// there is neither.
pub open spec fn last_keyword_verdict(ws: Seq<Seq<char>>, read: bool) -> bool
    decreases ws.len(),
{
    if ws.len() == 0 {
        read
    } else if ws.last() == seq!['S', 'E', 'L', 'E', 'C', 'T'] {
        true
    } else if ws.last() == seq!['I', 'N', 'S', 'E', 'R', 'T'] || ws.last() == seq!['U', 'P', 'D', 'A', 'T', 'E']
        || ws.last() == seq!['D', 'E', 'L', 'E', 'T', 'E'] || ws.last() == seq!['M', 'E', 'R', 'G', 'E'] {
        false
    } else {
        last_keyword_verdict(ws.drop_last(), read)
    }
}

proof fn lemma_cte_scan_push(ws: Seq<Seq<char>>, w: Seq<char>, depth: int, read: bool)
    requires
        forall|k: int| 0 <= k < ws.len() ==> plain_word(#[trigger] ws[k]),
        plain_word(w),
    ensures
        cte_scan(ws.push(w), depth, read) == cte_word(w, depth, cte_scan(ws, depth, read)).1,
    decreases ws.len(),
{
    if ws.len() == 0 {
        assert(ws.push(w).drop_first() =~= Seq::<Seq<char>>::empty());
        assert(ws.push(w)[0] == w);
        assert(cte_scan(ws.push(w), depth, read) == cte_scan(Seq::<Seq<char>>::empty(), cte_word(w, depth, read).0, cte_word(w, depth, read).1));
    } else {
        assert(plain_word(ws[0]));
        let r2 = cte_word(ws[0], depth, read).1;
        assert(cte_word(ws[0], depth, read).0 == depth);
        assert(ws.push(w)[0] == ws[0]);
        assert(ws.push(w).drop_first() =~= ws.drop_first().push(w));
        assert(cte_scan(ws, depth, read) == cte_scan(ws.drop_first(), depth, r2));
        assert(cte_scan(ws.push(w), depth, read) == cte_scan(ws.drop_first().push(w), depth, r2));
        assert forall|k: int| 0 <= k < ws.drop_first().len() implies plain_word(#[trigger] ws.drop_first()[k]) by {
            assert(ws.drop_first()[k] == ws[k + 1]);
        }
        lemma_cte_scan_push(ws.drop_first(), w, depth, r2);
    }
}

/// In a `WITH` statement without parentheses, the verdict is that of its
/// last `SELECT` or write keyword: whatever comes before it does not count.
pub proof fn law_cte_last_keyword_decides(ws: Seq<Seq<char>>, read: bool)
    requires
        forall|k: int| 0 <= k < ws.len() ==> plain_word(#[trigger] ws[k]),
    ensures
        cte_scan(ws, 0, read) == last_keyword_verdict(ws, read),
    decreases ws.len(),
{
    if ws.len() > 0 {
        let front = ws.drop_last();
        assert forall|k: int| 0 <= k < front.len() implies plain_word(#[trigger] front[k]) by {
            assert(front[k] == ws[k]);
        }
        assert(plain_word(ws[ws.len() - 1]));
        assert(front.push(ws.last()) =~= ws);
        lemma_cte_scan_push(front, ws.last(), 0, read);
        law_cte_last_keyword_decides(front, read);
    }
}

proof fn lemma_cte_scan_inner(ws: Seq<Seq<char>>, depth: int, read: bool, rest: Seq<Seq<char>>)
    requires
        depth > 0,
        forall|k: int| 0 <= k < ws.len() ==> plain_word(#[trigger] ws[k]),
    ensures
        cte_scan(ws + rest, depth, read) == cte_scan(rest, depth, read),
    decreases ws.len(),
{
    if ws.len() > 0 {
        assert(plain_word(ws[0]));
        assert((ws + rest).drop_first() =~= ws.drop_first() + rest);
        assert forall|k: int| 0 <= k < ws.drop_first().len() implies plain_word(#[trigger] ws.drop_first()[k]) by {
            assert(ws.drop_first()[k] == ws[k + 1]);
        }
        lemma_cte_scan_inner(ws.drop_first(), depth, read, rest);
    }
}

/// Keywords inside parentheses do not count: a `WITH` statement whose words
/// are a word that opens one parenthesis, words without parentheses, a word
/// that closes it, then the words `tail`, has the verdict of `tail`.
pub proof fn law_cte_parenthesized_keywords_ignored(
    open: Seq<char>,
    inner: Seq<Seq<char>>,
    close: Seq<char>,
    tail: Seq<Seq<char>>,
    read: bool,
)
    requires
        count_char(open, '(') == 1 && count_char(open, ')') == 0,
        count_char(close, ')') == 1 && count_char(close, '(') == 0,
        forall|k: int| 0 <= k < inner.len() ==> plain_word(#[trigger] inner[k]),
    ensures
        cte_scan(seq![open] + inner + seq![close] + tail, 0, read) == cte_scan(tail, 0, read),
{
    lemma_count_char_contains(open, '(');
    lemma_count_char_contains(close, ')');
    let all = seq![open] + inner + seq![close] + tail;
    assert(all[0] == open);
    assert(all.drop_first() =~= inner + (seq![close] + tail));
    lemma_cte_scan_inner(inner, 1, read, seq![close] + tail);
    assert((seq![close] + tail)[0] == close);
    assert((seq![close] + tail).drop_first() =~= tail);
}

/// The keywords that open a statement which only reads, as they stand at the
/// head of an upper-cased statement.
pub open spec fn reading_keywords() -> Seq<Seq<char>> {
    seq![
        seq!['S', 'E', 'L', 'E', 'C', 'T'],
        seq!['E', 'X', 'P', 'L', 'A', 'I', 'N'],
        seq!['S', 'H', 'O', 'W'],
        seq!['D', 'E', 'S', 'C', 'R', 'I', 'B', 'E'],
        seq!['D', 'E', 'S', 'C'],
        seq!['P', 'R', 'A', 'G', 'M', 'A'],
        seq!['T', 'A', 'B', 'L', 'E'],
        seq!['V', 'A', 'L', 'U', 'E', 'S'],
    ]
}

/// The keywords that open a statement which writes.
pub open spec fn writing_keywords() -> Seq<Seq<char>> {
    seq![
        seq!['I', 'N', 'S', 'E', 'R', 'T'],
        seq!['U', 'P', 'D', 'A', 'T', 'E'],
        seq!['D', 'E', 'L', 'E', 'T', 'E'],
        seq!['C', 'R', 'E', 'A', 'T', 'E'],
        seq!['D', 'R', 'O', 'P'],
    ]
}

/// A statement whose first keyword after its leading comments, upper-cased,
/// is `SELECT`, `EXPLAIN`, `SHOW`, `DESCRIBE`, `DESC`, `PRAGMA`, `TABLE` or
/// `VALUES`, followed by a space and any text, is a read, whatever its `WITH`
/// verdict; its result rows are shown as a table.
pub proof fn law_reading_keywords_make_reads(sql: Seq<char>, k: int, tail: Seq<char>, cte: bool)
    requires
        0 <= k < reading_keywords().len(),
        uppercased(trim_start(strip_comments(sql))) == reading_keywords()[k] + seq![' '] + tail,
    ensures
        is_read(sql),
        read_verdict(reading_keywords()[k] + seq![' '] + tail, cte),
{
    let u = reading_keywords()[k] + seq![' '] + tail;
    let kw = reading_keywords()[k];
    if k == 0 {
        assert(u.take(6) =~= kw_select());
    } else if k == 1 {
        assert(u.take(7) =~= kw_explain());
    } else if k == 2 {
        assert(u.take(4) =~= kw_show());
    } else if k == 3 {
        assert(u.take(8) =~= kw_describe());
    } else if k == 4 {
        assert(u.take(5) =~= kw_desc_space());
    } else if k == 5 {
        assert(u.take(6) =~= kw_pragma());
    } else if k == 6 {
        assert(u.take(5) =~= kw_table());
    } else {
        assert(u.take(6) =~= kw_values());
    }
}

/// A statement that opens with `WITH` and a space, upper-cased after its
/// leading comments, is a read exactly when its last keyword at parenthesis
/// depth 0 is `SELECT`.
pub proof fn law_with_statement_read_by_its_last_keyword(sql: Seq<char>, tail: Seq<char>)
    requires
        uppercased(trim_start(strip_comments(sql))) == seq!['W', 'I', 'T', 'H', ' '] + tail,
    ensures
        is_read(sql) == cte_verdict(uppercased(strip_comments(sql))),
{
    let u = seq!['W', 'I', 'T', 'H', ' '] + tail;
    assert(u.take(4) =~= kw_with());
    assert(u[0] == 'W');
}

/// A statement that opens with `INSERT`, `UPDATE`, `DELETE`, `CREATE` or
/// `DROP` and a space, upper-cased after its leading comments, is no read: it
/// is run for a count of the rows it touched.
#[verifier::spinoff_prover]
pub proof fn law_writing_keywords_make_writes(sql: Seq<char>, k: int, tail: Seq<char>, cte: bool)
    requires
        0 <= k < writing_keywords().len(),
        uppercased(trim_start(strip_comments(sql))) == writing_keywords()[k] + seq![' '] + tail,
    ensures
        !is_read(sql),
        !read_verdict(writing_keywords()[k] + seq![' '] + tail, cte),
{
    let u = writing_keywords()[k] + seq![' '] + tail;
    assert(u[0] == writing_keywords()[k][0]);
    assert(u[1] == writing_keywords()[k][1]);
    assert(u[2] == writing_keywords()[k][2]);
    assert(u[3] == writing_keywords()[k][3]);
    let heads = seq![kw_select(), kw_with(), kw_explain(), kw_show(), kw_describe(),
        kw_desc_space(), kw_pragma(), kw_table(), kw_values()];
    assert forall|j: int| 0 <= j < heads.len() implies !starts_with(u, #[trigger] heads[j]) by {
        if starts_with(u, heads[j]) {
            assert(u.take(heads[j].len() as int)[0] == u[0]);
            assert(u.take(heads[j].len() as int)[1] == u[1]);
            assert(u.take(heads[j].len() as int)[2] == u[2]);
        }
    }
    assert(heads[0] == kw_select());
    assert(heads[1] == kw_with());
    assert(heads[2] == kw_explain());
    assert(heads[3] == kw_show());
    assert(heads[4] == kw_describe());
    assert(heads[5] == kw_desc_space());
    assert(heads[6] == kw_pragma());
    assert(heads[7] == kw_table());
    assert(heads[8] == kw_values());
}

} // verus!
