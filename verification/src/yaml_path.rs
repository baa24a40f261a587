//! Locating the line of a YAML patch that holds the value at a dotted
//! parameter path, such as `engine.sample_rate` or `clouds[0].density`.
//!
//! The patch is read as block-style YAML, line by line:
//! - a *content* line is one whose trimmed text is not empty and does not
//!   start with `#`;
//! - a content line whose trimmed text starts with `- ` opens a list *item*;
//!   the entry written after the dash sits two columns right of the dash;
//! - an entry `name: ...` (or `name : ...`) sets the key `name` at the column
//!   where its text starts;
//! - the value of an entry at column `c` is the run of lines after it up to
//!   the next content line indented less than `c`, or indented exactly `c`
//!   without being a list item;
//! - a list item whose dash is at column `d` runs up to the next content line
//!   indented `d` or less.
//!
//! A path segment is a key, or a key followed by `[n]`, which names the
//! `n`-th item (from 0) of the list under that key. Top-level keys sit at
//! column 0.

use vstd::prelude::*;
use vstd::string::*;
use crate::text::{
    chars_of, occurs_at, find_char, is_prefix_of, is_unicode_whitespace, lemma_find_char, lemma_find_char_range,
    lemma_leading_ws, lemma_split_step, lemma_trailing_ws, leading_ws,
    spec_is_whitespace, split_lines, trim,
};

verus! {

// ---------------------------------------------------------------------------
// The line structure of a patch.
// ---------------------------------------------------------------------------

/// A line that carries YAML content: not blank and not a comment.
pub open spec fn is_content(l: Seq<char>) -> bool {
    trim(l).len() > 0 && trim(l)[0] != '#'
}

/// A content line that opens a list item (`- ...`).
pub open spec fn is_item(l: Seq<char>) -> bool {
    is_content(l) && trim(l).len() >= 2 && trim(l)[0] == '-' && trim(l)[1] == ' '
}

/// The column of a line's first non-whitespace character.
pub open spec fn indent(l: Seq<char>) -> int {
    leading_ws(l) as int
}

/// The mapping entry written on a line: the trimmed text, after the `- ` of
/// a list item.
pub open spec fn entry(l: Seq<char>) -> Seq<char> {
    if is_item(l) {
        trim(l).skip(2)
    } else {
        trim(l)
    }
}

/// The column at which a line's entry starts.
pub open spec fn entry_col(l: Seq<char>) -> int {
    if is_item(l) {
        indent(l) + 2
    } else {
        indent(l)
    }
}

/// Whether the line's entry sets `key`: it begins with `key:` or `key :`.
pub open spec fn entry_sets_key(l: Seq<char>, key: Seq<char>) -> bool {
    &&& is_content(l)
    &&& (is_prefix_of(key + seq![':'], entry(l)) || is_prefix_of(key + seq![' ', ':'], entry(l)))
}

/// A line that sets `key` at column `c`.
pub open spec fn key_at(c: int, key: Seq<char>) -> spec_fn(Seq<char>) -> bool {
    |l: Seq<char>| entry_col(l) == c && entry_sets_key(l, key)
}

/// A line that ends the value of an entry at column `c`.
pub open spec fn ends_value(c: int) -> spec_fn(Seq<char>) -> bool {
    |l: Seq<char>| is_content(l) && (indent(l) < c || (indent(l) == c && !is_item(l)))
}

/// A content line.
pub open spec fn content_line() -> spec_fn(Seq<char>) -> bool {
    |l: Seq<char>| is_content(l)
}

/// A list item whose dash is at column `d`.
pub open spec fn item_at(d: int) -> spec_fn(Seq<char>) -> bool {
    |l: Seq<char>| is_item(l) && indent(l) == d
}

/// A line that ends a list item whose dash is at column `d`.
pub open spec fn ends_item(d: int) -> spec_fn(Seq<char>) -> bool {
    |l: Seq<char>| is_content(l) && indent(l) <= d
}

/// The first index in `from..hi` whose line satisfies `p`, or `hi`.
pub open spec fn first_where(ls: Seq<Seq<char>>, from: int, hi: int, p: spec_fn(Seq<char>) -> bool) -> int
    decreases hi - from,
{
    if from >= hi {
        hi
    } else if p(ls[from]) {
        from
    } else {
        first_where(ls, from + 1, hi, p)
    }
}

/// The index of the `n`-th list item (from 0) with its dash at column `d`
/// in `from..hi`, or `hi` when there are fewer.
pub open spec fn nth_item(ls: Seq<Seq<char>>, from: int, hi: int, d: int, n: nat) -> int
    decreases hi - from,
{
    if from >= hi {
        hi
    } else if is_item(ls[from]) && indent(ls[from]) == d {
        if n == 0 {
            from
        } else {
            nth_item(ls, from + 1, hi, d, (n - 1) as nat)
        }
    } else {
        nth_item(ls, from + 1, hi, d, n)
    }
}

pub proof fn lemma_first_where(ls: Seq<Seq<char>>, from: int, hi: int, p: spec_fn(Seq<char>) -> bool, j: int)
    requires
        from <= j <= hi,
        forall|k: int| from <= k < j ==> !p(ls[k]),
        j < hi ==> p(ls[j]),
    ensures
        first_where(ls, from, hi, p) == j,
    decreases j - from,
{
    if from < j {
        lemma_first_where(ls, from + 1, hi, p, j);
    }
}

pub proof fn lemma_nth_item_absent(ls: Seq<Seq<char>>, from: int, hi: int, d: int, n: nat)
    requires
        n >= hi - from,
    ensures
        nth_item(ls, from, hi, d, n) == hi,
    decreases hi - from,
{
    if from < hi {
        if is_item(ls[from]) && indent(ls[from]) == d {
            lemma_nth_item_absent(ls, from + 1, hi, d, (n - 1) as nat);
        } else {
            lemma_nth_item_absent(ls, from + 1, hi, d, n);
        }
    }
}

// ---------------------------------------------------------------------------
// Parameter paths.
// ---------------------------------------------------------------------------

/// The dot-separated segments of a parameter path.
pub open spec fn segments(p: Seq<char>) -> Seq<Seq<char>>
    decreases p.len(),
{
    let f = find_char(p, '.');
    proof {
        lemma_find_char_range(p, '.');
    }
    if f >= p.len() {
        seq![p]
    } else {
        seq![p.take(f)] + segments(p.skip(f + 1))
    }
}

pub open spec fn is_digit(c: char) -> bool {
    '0' <= c && c <= '9'
}

/// The number written by a string of decimal digits.
pub open spec fn digits_value(d: Seq<char>) -> nat
    decreases d.len(),
{
    if d.len() == 0 {
        0
    } else {
        10 * digits_value(d.drop_last()) + ((d.last() as int) - ('0' as int)) as nat
    }
}

/// Whether a segment ends in a list index `[n]`, after a non-empty key.
pub open spec fn has_index(s: Seq<char>) -> bool {
    let b = find_char(s, '[');
    &&& s.len() >= 3
    &&& s.last() == ']'
    &&& 1 <= b
    &&& b + 2 < s.len()
    &&& forall|i: int| b < i < s.len() - 1 ==> is_digit(#[trigger] s[i])
}

/// The key of a segment.
pub open spec fn seg_name(s: Seq<char>) -> Seq<char> {
    if has_index(s) {
        s.take(find_char(s, '['))
    } else {
        s
    }
}

/// The list index of a segment that has one.
pub open spec fn seg_index(s: Seq<char>) -> nat {
    digits_value(s.subrange(find_char(s, '[') + 1, s.len() - 1))
}

// ---------------------------------------------------------------------------
// Resolution.
// ---------------------------------------------------------------------------

/// The line, among `lo..hi` whose entries sit at column `c`, that holds the
/// value at the path `segs`; `None` when the path is not there.
pub open spec fn resolve(ls: Seq<Seq<char>>, lo: int, hi: int, c: int, segs: Seq<Seq<char>>) -> Option<int>
    decreases segs.len(),
{
    if segs.len() == 0 {
        None
    } else {
        let s = segs[0];
        let j = first_where(ls, lo, hi, key_at(c, seg_name(s)));
        if j >= hi || j < 0 {
            None
        } else if segs.len() == 1 {
            if has_index(s) {
                None
            } else {
                Some(j)
            }
        } else {
            let r = first_where(ls, j + 1, hi, ends_value(c));
            let p = first_where(ls, j + 1, r, content_line());
            if p >= r || p < 0 {
                None
            } else if !has_index(s) {
                if is_item(ls[p]) {
                    None
                } else {
                    resolve(ls, j + 1, r, indent(ls[p]), segs.drop_first())
                }
            } else if !is_item(ls[p]) {
                None
            } else {
                let d = indent(ls[p]);
                let t = nth_item(ls, p, r, d, seg_index(s));
                if t >= r {
                    None
                } else {
                    let e = first_where(ls, t + 1, r, ends_item(d));
                    resolve(ls, t, e, d + 2, segs.drop_first())
                }
            }
        }
    }
}

/// The line of the patch `yaml` that holds the value at the dotted path
/// `param`.
pub open spec fn param_line(yaml: Seq<char>, param: Seq<char>) -> Option<int> {
    resolve(split_lines(yaml), 0, split_lines(yaml).len() as int, 0, segments(param))
}


// ---------------------------------------------------------------------------
// Blank and comment lines play no role.
// ---------------------------------------------------------------------------

/// Where line `i` goes when a line is inserted at index `k`.
pub open spec fn shifted(k: int, i: int) -> int {
    if i >= k {
        i + 1
    } else {
        i
    }
}

/// `a2` is a position, in the lines with a line inserted at `k`, that stands
/// for the position `a` of the original lines (at `k` itself either side of
/// the inserted line will do).
pub open spec fn same_position(k: int, a: int, a2: int) -> bool {
    a2 == shifted(k, a) || (a == k && a2 == k)
}

proof fn lemma_first_where_insert(
    ls: Seq<Seq<char>>,
    k: int,
    b: Seq<char>,
    p: spec_fn(Seq<char>) -> bool,
    lo: int,
    hi: int,
    lo2: int,
    hi2: int,
)
    requires
        0 <= k <= ls.len(),
        !is_content(b),
        forall|l: Seq<char>| #[trigger] p(l) ==> is_content(l),
        0 <= lo <= hi <= ls.len(),
        same_position(k, lo, lo2),
        same_position(k, hi, hi2),
    ensures
        ({
            let r = first_where(ls, lo, hi, p);
            let r2 = first_where(ls.insert(k, b), lo2, hi2, p);
            &&& r < hi ==> r2 == shifted(k, r)
            &&& r >= hi ==> r2 == hi2
        }),
    decreases hi - lo, (if lo2 == shifted(k, lo) { 0int } else { 1int }),
{
    let ls2 = ls.insert(k, b);
    if lo2 != shifted(k, lo) {
        // lo == k == lo2: the inserted line comes first and is skipped.
        if lo2 < hi2 {
            assert(ls2[lo2] == b);
            lemma_first_where_insert(ls, k, b, p, lo, hi, lo2 + 1, hi2);
        }
    } else if lo < hi {
        assert(ls2[lo2] == ls[lo]);
        if !p(ls[lo]) {
            let n2 = lo2 + 1;
            assert(same_position(k, lo + 1, n2));
            lemma_first_where_insert(ls, k, b, p, lo + 1, hi, n2, hi2);
        }
    }
}

proof fn lemma_nth_item_insert(
    ls: Seq<Seq<char>>,
    k: int,
    b: Seq<char>,
    d: int,
    n: nat,
    lo: int,
    hi: int,
    lo2: int,
    hi2: int,
)
    requires
        0 <= k <= ls.len(),
        !is_content(b),
        0 <= lo <= hi <= ls.len(),
        same_position(k, lo, lo2),
        same_position(k, hi, hi2),
    ensures
        ({
            let r = nth_item(ls, lo, hi, d, n);
            let r2 = nth_item(ls.insert(k, b), lo2, hi2, d, n);
            &&& r < hi ==> r2 == shifted(k, r)
            &&& r >= hi ==> r2 == hi2
        }),
    decreases hi - lo, (if lo2 == shifted(k, lo) { 0int } else { 1int }),
{
    let ls2 = ls.insert(k, b);
    if lo2 != shifted(k, lo) {
        if lo2 < hi2 {
            assert(ls2[lo2] == b);
            lemma_nth_item_insert(ls, k, b, d, n, lo, hi, lo2 + 1, hi2);
        }
    } else if lo < hi {
        assert(ls2[lo2] == ls[lo]);
        let n2 = lo2 + 1;
        assert(same_position(k, lo + 1, n2));
        if is_item(ls[lo]) && indent(ls[lo]) == d {
            if n > 0 {
                lemma_nth_item_insert(ls, k, b, d, (n - 1) as nat, lo + 1, hi, n2, hi2);
            }
        } else {
            lemma_nth_item_insert(ls, k, b, d, n, lo + 1, hi, n2, hi2);
        }
    }
}

proof fn lemma_resolve_insert(
    ls: Seq<Seq<char>>,
    k: int,
    b: Seq<char>,
    lo: int,
    hi: int,
    lo2: int,
    hi2: int,
    c: int,
    segs: Seq<Seq<char>>,
)
    requires
        0 <= k <= ls.len(),
        !is_content(b),
        0 <= lo <= hi <= ls.len(),
        same_position(k, lo, lo2),
        same_position(k, hi, hi2),
    ensures
        resolve(ls.insert(k, b), lo2, hi2, c, segs) == match resolve(ls, lo, hi, c, segs) {
            Some(j) => Some(shifted(k, j)),
            None => None,
        },
    decreases segs.len(),
{
    let ls2 = ls.insert(k, b);
    if segs.len() > 0 {
        let s = segs[0];
        let pk = key_at(c, seg_name(s));
        assert(forall|l: Seq<char>| #[trigger] pk(l) ==> is_content(l));
        lemma_first_where_insert(ls, k, b, pk, lo, hi, lo2, hi2);
        lemma_first_where_range(ls, lo, hi, pk);
        let j = first_where(ls, lo, hi, pk);
        let j2 = first_where(ls2, lo2, hi2, pk);
        if j < hi && segs.len() > 1 {
            assert(ls2[j2] == ls[j]);
            let pe = ends_value(c);
            assert(forall|l: Seq<char>| #[trigger] pe(l) ==> is_content(l));
            assert(same_position(k, j + 1, j2 + 1));
            lemma_first_where_insert(ls, k, b, pe, j + 1, hi, j2 + 1, hi2);
            lemma_first_where_range(ls, j + 1, hi, pe);
            let r = first_where(ls, j + 1, hi, pe);
            let r2 = first_where(ls2, j2 + 1, hi2, pe);
            assert(same_position(k, r, r2));
            let pc = content_line();
            assert(forall|l: Seq<char>| #[trigger] pc(l) ==> is_content(l));
            lemma_first_where_insert(ls, k, b, pc, j + 1, r, j2 + 1, r2);
            lemma_first_where_range(ls, j + 1, r, pc);
            let q = first_where(ls, j + 1, r, pc);
            let q2 = first_where(ls2, j2 + 1, r2, pc);
            if q < r {
                assert(ls2[q2] == ls[q]);
                let rest = segs.drop_first();
                if !has_index(s) {
                    lemma_resolve_insert(ls, k, b, j + 1, r, j2 + 1, r2, indent(ls[q]), rest);
                } else if is_item(ls[q]) {
                    let d = indent(ls[q]);
                    assert(same_position(k, q, q2));
                    lemma_nth_item_insert(ls, k, b, d, seg_index(s), q, r, q2, r2);
                    lemma_nth_item_range(ls, q, r, d, seg_index(s));
                    let t = nth_item(ls, q, r, d, seg_index(s));
                    let t2 = nth_item(ls2, q2, r2, d, seg_index(s));
                    if t < r {
                        let pi = ends_item(d);
                        assert(forall|l: Seq<char>| #[trigger] pi(l) ==> is_content(l));
                        assert(same_position(k, t + 1, t2 + 1));
                        lemma_first_where_insert(ls, k, b, pi, t + 1, r, t2 + 1, r2);
                        lemma_first_where_range(ls, t + 1, r, pi);
                        let e = first_where(ls, t + 1, r, pi);
                        let e2 = first_where(ls2, t2 + 1, r2, pi);
                        assert(same_position(k, e, e2));
                        assert(same_position(k, t, t2));
                        lemma_resolve_insert(ls, k, b, t, e, t2, e2, d + 2, rest);
                    }
                }
            }
        }
    }
}

pub proof fn lemma_first_where_range(ls: Seq<Seq<char>>, lo: int, hi: int, p: spec_fn(Seq<char>) -> bool)
    requires
        lo <= hi,
    ensures
        lo <= first_where(ls, lo, hi, p) <= hi,
    decreases hi - lo,
{
    if lo < hi && !p(ls[lo]) {
        lemma_first_where_range(ls, lo + 1, hi, p);
    }
}

pub proof fn lemma_nth_item_range(ls: Seq<Seq<char>>, lo: int, hi: int, d: int, n: nat)
    requires
        lo <= hi,
    ensures
        lo <= nth_item(ls, lo, hi, d, n) <= hi,
    decreases hi - lo,
{
    if lo < hi {
        if is_item(ls[lo]) && indent(ls[lo]) == d {
            if n > 0 {
                lemma_nth_item_range(ls, lo + 1, hi, d, (n - 1) as nat);
            }
        } else {
            lemma_nth_item_range(ls, lo + 1, hi, d, n);
        }
    }
}

/// Blank lines and comment lines play no role in finding a value: inserting
/// one anywhere in a patch leaves the path at the same line (moved down by one
/// when it comes after the inserted line), and a path that is absent stays
/// absent.
pub proof fn law_blank_and_comment_lines_play_no_role(
    yaml: Seq<char>,
    longer: Seq<char>,
    k: int,
    line: Seq<char>,
    param: Seq<char>,
)
    requires
        0 <= k <= split_lines(yaml).len(),
        !is_content(line),
        split_lines(longer) == split_lines(yaml).insert(k, line),
    ensures
        param_line(longer, param) == match param_line(yaml, param) {
            Some(j) => Some(shifted(k, j)),
            None => None,
        },
{
    let ls = split_lines(yaml);
    assert(same_position(k, 0, 0));
    assert(same_position(k, ls.len() as int, ls.len() as int + 1));
    lemma_resolve_insert(ls, k, line, 0, ls.len() as int, 0, ls.len() as int + 1, 0, segments(param));
}

proof fn lemma_first_where_found(ls: Seq<Seq<char>>, lo: int, hi: int, p: spec_fn(Seq<char>) -> bool)
    requires
        lo <= hi,
    ensures
        first_where(ls, lo, hi, p) < hi ==> p(ls[first_where(ls, lo, hi, p)]),
        forall|i: int| lo <= i < first_where(ls, lo, hi, p) ==> !p(#[trigger] ls[i]),
    decreases hi - lo,
{
    if lo < hi && !p(ls[lo]) {
        lemma_first_where_found(ls, lo + 1, hi, p);
    }
}

proof fn lemma_resolve_found(ls: Seq<Seq<char>>, lo: int, hi: int, c: int, segs: Seq<Seq<char>>)
    requires
        0 <= lo <= hi <= ls.len(),
    ensures
        resolve(ls, lo, hi, c, segs) matches Some(j) ==> {
            &&& lo <= j < hi
            &&& segs.len() > 0
            &&& entry_sets_key(ls[j], seg_name(segs.last()))
            &&& !has_index(segs.last())
        },
    decreases segs.len(),
{
    if segs.len() > 0 {
        let s = segs[0];
        let pk = key_at(c, seg_name(s));
        lemma_first_where_found(ls, lo, hi, pk);
        lemma_first_where_range(ls, lo, hi, pk);
        let j = first_where(ls, lo, hi, pk);
        if j < hi && segs.len() > 1 {
            let rest = segs.drop_first();
            assert(rest.last() == segs.last());
            let pe = ends_value(c);
            lemma_first_where_range(ls, j + 1, hi, pe);
            let r = first_where(ls, j + 1, hi, pe);
            let pc = content_line();
            lemma_first_where_range(ls, j + 1, r, pc);
            let q = first_where(ls, j + 1, r, pc);
            if q < r {
                if !has_index(s) {
                    lemma_resolve_found(ls, j + 1, r, indent(ls[q]), rest);
                } else if is_item(ls[q]) {
                    let d = indent(ls[q]);
                    lemma_nth_item_range(ls, q, r, d, seg_index(s));
                    let t = nth_item(ls, q, r, d, seg_index(s));
                    if t < r {
                        let pi = ends_item(d);
                        lemma_first_where_range(ls, t + 1, r, pi);
                        lemma_resolve_found(ls, t, first_where(ls, t + 1, r, pi), d + 2, rest);
                    }
                }
            }
        }
    }
}

/// The line found for a path sets the key of the path's last segment, and
/// that segment names no list item.
pub proof fn law_found_line_sets_last_key(yaml: Seq<char>, param: Seq<char>)
    ensures
        param_line(yaml, param) matches Some(j) ==> {
            &&& 0 <= j < split_lines(yaml).len()
            &&& is_content(split_lines(yaml)[j])
            &&& entry_sets_key(split_lines(yaml)[j], seg_name(segments(param).last()))
            &&& !has_index(segments(param).last())
        },
{
    let ls = split_lines(yaml);
    lemma_resolve_found(ls, 0, ls.len() as int, 0, segments(param));
}

/// A path of one key without `[n]` names the first line of the patch that
/// sets that key at column 0, and is absent when no such line exists.
pub proof fn law_top_level_key(yaml: Seq<char>, key: Seq<char>)
    requires
        forall|i: int| 0 <= i < key.len() ==> key[i] != '.',
        !has_index(key),
    ensures
        ({
            let ls = split_lines(yaml);
            let sets = |i: int| entry_col(ls[i]) == 0 && entry_sets_key(ls[i], key);
            &&& param_line(yaml, key) matches Some(j) ==> 0 <= j < ls.len() && sets(j) && (forall|i: int|
                0 <= i < j ==> !#[trigger] sets(i))
            &&& param_line(yaml, key) is None ==> forall|i: int| 0 <= i < ls.len() ==> !#[trigger] sets(i)
        }),
{
    let ls = split_lines(yaml);
    lemma_find_char(key, '.', key.len() as int);
    assert(segments(key) =~= seq![key]);
    let pk = key_at(0, key);
    lemma_first_where_found(ls, 0, ls.len() as int, pk);
    lemma_first_where_range(ls, 0, ls.len() as int, pk);
}

/// A path of several segments is found inside the value of its first key:
/// after the first line that sets that key at column 0, with every content
/// line in between indented further, or a list item.
pub proof fn law_nested_inside_first_key(yaml: Seq<char>, param: Seq<char>)
    requires
        segments(param).len() >= 2,
    ensures
        param_line(yaml, param) matches Some(j) ==> exists|i: int|
            #![trigger split_lines(yaml)[i]]
            0 <= i < j && entry_col(split_lines(yaml)[i]) == 0 && entry_sets_key(
                split_lines(yaml)[i],
                seg_name(segments(param)[0]),
            ) && (forall|m: int|
                0 <= m < i ==> !(entry_col(#[trigger] split_lines(yaml)[m]) == 0 && entry_sets_key(
                    split_lines(yaml)[m],
                    seg_name(segments(param)[0]),
                ))) && (forall|m: int|
                i < m < j && is_content(#[trigger] split_lines(yaml)[m]) ==> indent(
                    split_lines(yaml)[m],
                ) > 0 || is_item(split_lines(yaml)[m])),
{
    let ls = split_lines(yaml);
    let segs = segments(param);
    let hi = ls.len() as int;
    let s = segs[0];
    let pk = key_at(0, seg_name(s));
    lemma_first_where_found(ls, 0, hi, pk);
    lemma_first_where_range(ls, 0, hi, pk);
    let i = first_where(ls, 0, hi, pk);
    if i < hi {
        let rest = segs.drop_first();
        let pe = ends_value(0);
        lemma_first_where_found(ls, i + 1, hi, pe);
        lemma_first_where_range(ls, i + 1, hi, pe);
        let r = first_where(ls, i + 1, hi, pe);
        let pc = content_line();
        lemma_first_where_range(ls, i + 1, r, pc);
        let q = first_where(ls, i + 1, r, pc);
        if q < r {
            if !has_index(s) {
                lemma_resolve_found(ls, i + 1, r, indent(ls[q]), rest);
            } else if is_item(ls[q]) {
                let d = indent(ls[q]);
                lemma_nth_item_range(ls, q, r, d, seg_index(s));
                let t = nth_item(ls, q, r, d, seg_index(s));
                if t < r {
                    let pi = ends_item(d);
                    lemma_first_where_range(ls, t + 1, r, pi);
                    lemma_resolve_found(ls, t, first_where(ls, t + 1, r, pi), d + 2, rest);
                }
            }
        }
        if param_line(yaml, param) is Some {
            let j = param_line(yaml, param)->0;
            assert(i < j < r);
            assert forall|m: int|
                i < m < j && is_content(#[trigger] ls[m]) implies indent(ls[m]) > 0 || is_item(ls[m]) by {
                assert(!pe(ls[m]));
                lemma_leading_ws_nonneg(ls[m]);
            }
            assert forall|m: int| 0 <= m < i implies !(entry_col(#[trigger] ls[m]) == 0
                && entry_sets_key(ls[m], seg_name(s))) by {
                assert(!pk(ls[m]));
            }
        }
    }
}

proof fn lemma_leading_ws_nonneg(l: Seq<char>)
    ensures
        indent(l) >= 0,
{
}

// ---------------------------------------------------------------------------
// Lines of the patch text, located by index.
// ---------------------------------------------------------------------------

/// Where a line sits in the patch text: `lo..hi` is the line without its line
/// ending, `ts..te` its trimmed text.
#[derive(Clone, Copy)]
pub struct LineSpan {
    pub lo: usize,
    pub hi: usize,
    pub ts: usize,
    pub te: usize,
}

/// `sp` locates `line` in `text`.
pub open spec fn span_ok(text: Seq<char>, sp: LineSpan, line: Seq<char>) -> bool {
    &&& sp.lo <= sp.ts <= sp.te <= sp.hi <= text.len()
    &&& line == text.subrange(sp.lo as int, sp.hi as int)
    &&& trim(line) == text.subrange(sp.ts as int, sp.te as int)
    &&& leading_ws(line) == sp.ts - sp.lo
}

/// `spans` locates each of `lines` in `text`.
pub open spec fn spans_ok(text: Seq<char>, spans: Seq<LineSpan>, lines: Seq<Seq<char>>) -> bool {
    &&& spans.len() == lines.len()
    &&& forall|i: int| 0 <= i < lines.len() ==> span_ok(text, #[trigger] spans[i], lines[i])
}

/// Locates the line `text[lo..hi]` and its trimmed text.
fn span_of(text: &Vec<char>, lo: usize, hi: usize) -> (sp: LineSpan)
    requires
        lo <= hi <= text@.len(),
    ensures
        sp.lo == lo,
        sp.hi == hi,
        span_ok(text@, sp, text@.subrange(lo as int, hi as int)),
{
    let ghost line = text@.subrange(lo as int, hi as int);
    let mut ts: usize = lo;
    while ts < hi && is_unicode_whitespace(text[ts])
        invariant
            lo <= ts <= hi,
            hi <= text@.len(),
            forall|j: int| lo <= j < ts ==> spec_is_whitespace(text@[j]),
        decreases hi - ts,
    {
        ts = ts + 1;
    }
    proof {
        lemma_leading_ws(line, ts - lo);
    }
    let mut te: usize = hi;
    while te > ts && is_unicode_whitespace(text[te - 1])
        invariant
            ts <= te <= hi,
            hi <= text@.len(),
            forall|j: int| te <= j < hi ==> spec_is_whitespace(text@[j]),
        decreases te,
    {
        te = te - 1;
    }
    proof {
        let a = line.skip(leading_ws(line) as int);
        assert(a =~= text@.subrange(ts as int, hi as int));
        lemma_trailing_ws(a, hi - te);
        assert(trim(line) =~= text@.subrange(ts as int, te as int));
    }
    LineSpan { lo, hi, ts, te }
}

/// The lines of `text`, as `split_lines` gives them, located by index.
pub fn spans_of(text: &Vec<char>) -> (spans: Vec<LineSpan>)
    ensures
        spans_ok(text@, spans@, split_lines(text@)),
{
    let n = text.len();
    let mut spans: Vec<LineSpan> = Vec::new();
    let mut pos: usize = 0;
    let ghost mut done: Seq<Seq<char>> = seq![];
    assert(text@.skip(0) =~= text@);
    while pos < n
        invariant
            pos <= n,
            n == text@.len(),
            split_lines(text@) == done + split_lines(text@.skip(pos as int)),
            spans_ok(text@, spans@, done),
        decreases n - pos,
    {
        let mut e: usize = pos;
        while e < n && text[e] != '\n'
            invariant
                pos <= e <= n,
                n == text@.len(),
                forall|j: int| pos <= j < e ==> text@[j] != '\n',
            decreases n - e,
        {
            e = e + 1;
        }
        let le: usize = if e < n && e > pos && text[e - 1] == '\r' {
            e - 1
        } else {
            e
        };
        proof {
            lemma_split_step(text@, pos as int, e as int, le as int);
        }
        let sp = span_of(text, pos, le);
        let ghost line = text@.subrange(pos as int, le as int);
        let ghost before = spans@;
        spans.push(sp);
        proof {
            let new_done = done.push(line);
            assert(split_lines(text@) =~= new_done + split_lines(text@.skip(
                if e < n { e + 1 } else { e as int },
            )));
            assert forall|i: int| 0 <= i < new_done.len() implies span_ok(
                text@,
                #[trigger] spans@[i],
                new_done[i],
            ) by {
                if i < done.len() {
                    assert(spans@[i] == before[i]);
                }
            }
            done = new_done;
        }
        pos = if e < n {
            e + 1
        } else {
            e
        };
    }
    proof {
        assert(text@.skip(n as int) =~= Seq::<char>::empty());
        assert(done =~= split_lines(text@));
    }
    spans
}


/// Whether `pat` is a prefix of the characters `text[lo..hi]`.
fn prefix_within(text: &Vec<char>, lo: usize, hi: usize, pat: &Vec<char>) -> (b: bool)
    requires
        lo <= hi <= text@.len(),
    ensures
        b == is_prefix_of(pat@, text@.subrange(lo as int, hi as int)),
{
    if pat.len() > hi - lo {
        return false;
    }
    let b = occurs_at(text, lo, pat);
    assert(text@.subrange(lo as int, hi as int).subrange(0, pat@.len() as int) =~= text@.subrange(
        lo as int,
        lo + pat@.len(),
    ));
    b
}

/// Whether the located line is a content line.
fn content_at(text: &Vec<char>, sp: LineSpan, Ghost(line): Ghost<Seq<char>>) -> (b: bool)
    requires
        span_ok(text@, sp, line),
    ensures
        b == is_content(line),
{
    sp.te > sp.ts && text[sp.ts] != '#'
}

/// Whether the located line opens a list item.
fn item_line(text: &Vec<char>, sp: LineSpan, Ghost(line): Ghost<Seq<char>>) -> (b: bool)
    requires
        span_ok(text@, sp, line),
    ensures
        b == is_item(line),
{
    content_at(text, sp, Ghost(line)) && sp.te - sp.ts >= 2 && text[sp.ts] == '-' && text[sp.ts
        + 1] == ' '
}

/// The column of the located line's entry.
fn entry_col_at(text: &Vec<char>, sp: LineSpan, Ghost(line): Ghost<Seq<char>>) -> (c: usize)
    requires
        span_ok(text@, sp, line),
    ensures
        c == entry_col(line),
{
    if item_line(text, sp, Ghost(line)) {
        sp.ts - sp.lo + 2
    } else {
        sp.ts - sp.lo
    }
}

/// Whether the located line's entry sets the key whose two accepted prefixes
/// are `tight` (`key:`) and `spaced` (`key :`).
fn sets_key_at(
    text: &Vec<char>,
    sp: LineSpan,
    tight: &Vec<char>,
    spaced: &Vec<char>,
    Ghost(line): Ghost<Seq<char>>,
    Ghost(key): Ghost<Seq<char>>,
) -> (b: bool)
    requires
        span_ok(text@, sp, line),
        tight@ == key + seq![':'],
        spaced@ == key + seq![' ', ':'],
    ensures
        b == entry_sets_key(line, key),
{
    if !content_at(text, sp, Ghost(line)) {
        return false;
    }
    let es = if item_line(text, sp, Ghost(line)) {
        sp.ts + 2
    } else {
        sp.ts
    };
    assert(entry(line) =~= text@.subrange(es as int, sp.te as int));
    prefix_within(text, es, sp.te, tight) || prefix_within(text, es, sp.te, spaced)
}

/// The common frame of the searches below.
pub open spec fn search_ok(
    text: Seq<char>,
    spans: Seq<LineSpan>,
    ls: Seq<Seq<char>>,
    lo: int,
    hi: int,
) -> bool {
    &&& spans_ok(text, spans, ls)
    &&& 0 <= lo <= hi <= ls.len()
}

/// The first line in `lo..hi` that sets the key at column `c`.
fn find_key_at(
    text: &Vec<char>,
    spans: &Vec<LineSpan>,
    lo: usize,
    hi: usize,
    c: usize,
    tight: &Vec<char>,
    spaced: &Vec<char>,
    Ghost(ls): Ghost<Seq<Seq<char>>>,
    Ghost(key): Ghost<Seq<char>>,
) -> (j: usize)
    requires
        search_ok(text@, spans@, ls, lo as int, hi as int),
        tight@ == key + seq![':'],
        spaced@ == key + seq![' ', ':'],
    ensures
        j == first_where(ls, lo as int, hi as int, key_at(c as int, key)),
        lo <= j <= hi,
        j < hi ==> entry_sets_key(ls[j as int], key),
{
    let mut j = lo;
    while j < hi
        invariant
            search_ok(text@, spans@, ls, lo as int, hi as int),
            tight@ == key + seq![':'],
            spaced@ == key + seq![' ', ':'],
            lo <= j <= hi,
            forall|k: int| lo <= k < j ==> !key_at(c as int, key)(#[trigger] ls[k]),
        ensures
            lo <= j <= hi,
            forall|k: int| lo <= k < j ==> !key_at(c as int, key)(#[trigger] ls[k]),
            j < hi ==> key_at(c as int, key)(ls[j as int]),
        decreases hi - j,
    {
        let sp = spans[j];
        assert(span_ok(text@, spans@[j as int], ls[j as int]));
        if entry_col_at(text, sp, Ghost(ls[j as int])) == c && sets_key_at(
            text,
            sp,
            tight,
            spaced,
            Ghost(ls[j as int]),
            Ghost(key),
        ) {
            break;
        }
        j = j + 1;
    }
    proof {
        lemma_first_where(ls, lo as int, hi as int, key_at(c as int, key), j as int);
    }
    j
}

/// The first line in `lo..hi` that ends the value of an entry at column `c`.
fn find_value_end(
    text: &Vec<char>,
    spans: &Vec<LineSpan>,
    lo: usize,
    hi: usize,
    c: usize,
    Ghost(ls): Ghost<Seq<Seq<char>>>,
) -> (j: usize)
    requires
        search_ok(text@, spans@, ls, lo as int, hi as int),
    ensures
        j == first_where(ls, lo as int, hi as int, ends_value(c as int)),
        lo <= j <= hi,
{
    let mut j = lo;
    while j < hi
        invariant
            search_ok(text@, spans@, ls, lo as int, hi as int),
            lo <= j <= hi,
            forall|k: int| lo <= k < j ==> !ends_value(c as int)(#[trigger] ls[k]),
        ensures
            lo <= j <= hi,
            forall|k: int| lo <= k < j ==> !ends_value(c as int)(#[trigger] ls[k]),
            j < hi ==> ends_value(c as int)(ls[j as int]),
        decreases hi - j,
    {
        let sp = spans[j];
        assert(span_ok(text@, spans@[j as int], ls[j as int]));
        let ind = sp.ts - sp.lo;
        if content_at(text, sp, Ghost(ls[j as int])) && (ind < c || (ind == c && !item_line(
            text,
            sp,
            Ghost(ls[j as int]),
        ))) {
            break;
        }
        j = j + 1;
    }
    proof {
        lemma_first_where(ls, lo as int, hi as int, ends_value(c as int), j as int);
    }
    j
}

/// The first content line in `lo..hi`.
fn find_content(
    text: &Vec<char>,
    spans: &Vec<LineSpan>,
    lo: usize,
    hi: usize,
    Ghost(ls): Ghost<Seq<Seq<char>>>,
) -> (j: usize)
    requires
        search_ok(text@, spans@, ls, lo as int, hi as int),
    ensures
        j == first_where(ls, lo as int, hi as int, content_line()),
        lo <= j <= hi,
{
    let mut j = lo;
    while j < hi
        invariant
            search_ok(text@, spans@, ls, lo as int, hi as int),
            lo <= j <= hi,
            forall|k: int| lo <= k < j ==> !content_line()(#[trigger] ls[k]),
        ensures
            lo <= j <= hi,
            forall|k: int| lo <= k < j ==> !content_line()(#[trigger] ls[k]),
            j < hi ==> content_line()(ls[j as int]),
        decreases hi - j,
    {
        let sp = spans[j];
        assert(span_ok(text@, spans@[j as int], ls[j as int]));
        if content_at(text, sp, Ghost(ls[j as int])) {
            break;
        }
        j = j + 1;
    }
    proof {
        lemma_first_where(ls, lo as int, hi as int, content_line(), j as int);
    }
    j
}

/// The first line in `lo..hi` that ends a list item whose dash is at `d`.
fn find_item_end(
    text: &Vec<char>,
    spans: &Vec<LineSpan>,
    lo: usize,
    hi: usize,
    d: usize,
    Ghost(ls): Ghost<Seq<Seq<char>>>,
) -> (j: usize)
    requires
        search_ok(text@, spans@, ls, lo as int, hi as int),
    ensures
        j == first_where(ls, lo as int, hi as int, ends_item(d as int)),
        lo <= j <= hi,
{
    let mut j = lo;
    while j < hi
        invariant
            search_ok(text@, spans@, ls, lo as int, hi as int),
            lo <= j <= hi,
            forall|k: int| lo <= k < j ==> !ends_item(d as int)(#[trigger] ls[k]),
        ensures
            lo <= j <= hi,
            forall|k: int| lo <= k < j ==> !ends_item(d as int)(#[trigger] ls[k]),
            j < hi ==> ends_item(d as int)(ls[j as int]),
        decreases hi - j,
    {
        let sp = spans[j];
        assert(span_ok(text@, spans@[j as int], ls[j as int]));
        if content_at(text, sp, Ghost(ls[j as int])) && sp.ts - sp.lo <= d {
            break;
        }
        j = j + 1;
    }
    proof {
        lemma_first_where(ls, lo as int, hi as int, ends_item(d as int), j as int);
    }
    j
}

/// The `n`-th list item (from 0) with its dash at column `d` in `lo..hi`.
fn find_nth_item(
    text: &Vec<char>,
    spans: &Vec<LineSpan>,
    lo: usize,
    hi: usize,
    d: usize,
    n: usize,
    Ghost(ls): Ghost<Seq<Seq<char>>>,
) -> (t: usize)
    requires
        search_ok(text@, spans@, ls, lo as int, hi as int),
    ensures
        t == nth_item(ls, lo as int, hi as int, d as int, n as nat),
        lo <= t <= hi,
{
    let mut j = lo;
    let mut rest = n;
    while j < hi
        invariant
            search_ok(text@, spans@, ls, lo as int, hi as int),
            lo <= j <= hi,
            nth_item(ls, j as int, hi as int, d as int, rest as nat) == nth_item(
                ls,
                lo as int,
                hi as int,
                d as int,
                n as nat,
            ),
        decreases hi - j,
    {
        let sp = spans[j];
        assert(span_ok(text@, spans@[j as int], ls[j as int]));
        if item_line(text, sp, Ghost(ls[j as int])) && sp.ts - sp.lo == d {
            if rest == 0 {
                return j;
            }
            rest = rest - 1;
        }
        j = j + 1;
    }
    j
}


// ---------------------------------------------------------------------------
// Parsing a parameter path.
// ---------------------------------------------------------------------------

/// How a path segment names a list item.
#[derive(Clone, Copy)]
pub enum SegIndex {
    /// The segment has no `[n]`.
    Plain,
    /// The segment ends in `[n]`.
    At(usize),
    /// The segment ends in `[n]` with `n` beyond every list in the patch.
    Beyond,
}

/// A parsed path segment: the two accepted prefixes of a line that sets its
/// key (`key:` and `key :`), and its list index.
pub struct Segment {
    pub tight: Vec<char>,
    pub spaced: Vec<char>,
    pub index: SegIndex,
}

/// `seg` is the segment `s` parsed, with indexes from `bound` on reported as
/// `Beyond`.
pub open spec fn segment_ok(seg: Segment, s: Seq<char>, bound: nat) -> bool {
    &&& seg.tight@ == seg_name(s) + seq![':']
    &&& seg.spaced@ == seg_name(s) + seq![' ', ':']
    &&& match seg.index {
        SegIndex::Plain => !has_index(s),
        SegIndex::At(n) => has_index(s) && n == seg_index(s),
        SegIndex::Beyond => has_index(s) && seg_index(s) >= bound,
    }
}

/// The characters `text[a..b]` followed by `tail`.
fn chars_with(text: &Vec<char>, a: usize, b: usize, tail: &[char]) -> (v: Vec<char>)
    requires
        a <= b <= text@.len(),
    ensures
        v@ == text@.subrange(a as int, b as int) + tail@,
{
    let mut v: Vec<char> = Vec::new();
    let mut i = a;
    while i < b
        invariant
            a <= i <= b,
            b <= text@.len(),
            v@ == text@.subrange(a as int, i as int),
        decreases b - i,
    {
        v.push(text[i]);
        i = i + 1;
        assert(v@ =~= text@.subrange(a as int, i as int));
    }
    let mut k: usize = 0;
    while k < tail.len()
        invariant
            k <= tail@.len(),
            v@ == text@.subrange(a as int, b as int) + tail@.take(k as int),
        decreases tail@.len() - k,
    {
        v.push(tail[k]);
        k = k + 1;
        assert(v@ =~= text@.subrange(a as int, b as int) + tail@.take(k as int));
    }
    assert(tail@.take(tail@.len() as int) =~= tail@);
    v
}

/// Parses the segment `text[a..b]`.
fn parse_segment(text: &Vec<char>, a: usize, b: usize, bound: usize) -> (seg: Segment)
    requires
        a <= b <= text@.len(),
    ensures
        segment_ok(seg, text@.subrange(a as int, b as int), bound as nat),
{
    let ghost s = text@.subrange(a as int, b as int);
    let mut k = a;
    while k < b && text[k] != '['
        invariant
            a <= k <= b,
            b <= text@.len(),
            forall|j: int| a <= j < k ==> text@[j] != '[',
        decreases b - k,
    {
        k = k + 1;
    }
    proof {
        lemma_find_char(s, '[', k - a);
    }
    let mut index = SegIndex::Plain;
    let mut name_end = b;
    if b - a >= 3 && text[b - 1] == ']' && k >= a + 1 && b - k > 2 {
        let mut i = k + 1;
        let mut digits = true;
        let mut beyond = false;
        let mut v: u128 = 0;
        while i < b - 1
            invariant_except_break
                digits,
            invariant
                a < k,
                k + 2 < b,
                b <= text@.len(),
                k + 1 <= i <= b - 1,
                digits ==> forall|j: int| k < j < i ==> is_digit(#[trigger] text@[j]),
                digits && !beyond ==> v == digits_value(text@.subrange(k + 1, i as int)),
                digits && !beyond ==> v <= bound,
                digits && beyond ==> digits_value(text@.subrange(k + 1, i as int)) > bound,
            ensures
                digits ==> forall|j: int| k < j < b - 1 ==> is_digit(#[trigger] text@[j]),
                digits && !beyond ==> v == digits_value(text@.subrange(k + 1, b - 1)),
                digits && beyond ==> digits_value(text@.subrange(k + 1, b - 1)) > bound,
                !digits ==> exists|j: int| k < j < b - 1 && !is_digit(#[trigger] text@[j]),
            decreases b - 1 - i,
        {
            let ch = text[i];
            if !('0' <= ch && ch <= '9') {
                assert(!is_digit(text@[i as int]));
                digits = false;
                break;
            }
            let dv = ((ch as u32) - ('0' as u32)) as u128;
            proof {
                let pre = text@.subrange(k + 1, i as int);
                let next = text@.subrange(k + 1, i + 1);
                assert(next.drop_last() =~= pre);
                assert(next.last() == ch);
                assert(digits_value(next) == 10 * digits_value(pre) + dv);
            }
            if !beyond {
                assert(dv <= 9);
                assert(v <= usize::MAX);
                assert(usize::MAX <= 0xFFFF_FFFF_FFFF_FFFFu128);
                let w = 10 * v + dv;
                if w > bound as u128 {
                    beyond = true;
                } else {
                    v = w;
                }
            }
            i = i + 1;
        }
        if digits {
            name_end = k;
            if beyond {
                index = SegIndex::Beyond;
            } else {
                index = SegIndex::At(v as usize);
            }
        }
        proof {
            assert(s.last() == text@[b - 1]);
            assert(s.subrange(k - a + 1, s.len() - 1) =~= text@.subrange(k + 1, b - 1));
            if digits {
                assert forall|j: int| k - a < j < s.len() - 1 implies is_digit(#[trigger] s[j]) by {
                    assert(s[j] == text@[a + j]);
                }
                assert(has_index(s));
                assert(s.take(k - a) =~= text@.subrange(a as int, k as int));
            } else {
                let w = choose|j: int| k < j < b - 1 && !is_digit(#[trigger] text@[j]);
                assert(s[w - a] == text@[w]);
                assert(!has_index(s));
            }
        }
    } else {
        proof {
            if s.len() >= 3 {
                assert(s.last() == text@[b - 1]);
            }
            assert(!has_index(s));
            assert(s =~= text@.subrange(a as int, b as int));
        }
    }
    let tight = chars_with(text, a, name_end, &[':']);
    let spaced = chars_with(text, a, name_end, &[' ', ':']);
    proof {
        assert(tight@ =~= seg_name(s) + seq![':']);
        assert(spaced@ =~= seg_name(s) + seq![' ', ':']);
    }
    Segment { tight, spaced, index }
}


proof fn lemma_segments_step(p: Seq<char>, pos: int, e: int)
    requires
        0 <= pos <= e <= p.len(),
        forall|j: int| pos <= j < e ==> p[j] != '.',
        e == p.len() || p[e] == '.',
    ensures
        segments(p.skip(pos)) == seq![p.subrange(pos, e)] + (if e < p.len() {
            segments(p.skip(e + 1))
        } else {
            Seq::<Seq<char>>::empty()
        }),
{
    let rest = p.skip(pos);
    lemma_find_char(rest, '.', e - pos);
    if e < p.len() {
        assert(rest.take(e - pos) =~= p.subrange(pos, e));
        assert(rest.skip(e - pos + 1) =~= p.skip(e + 1));
    } else {
        assert(rest =~= p.subrange(pos, e));
    }
    assert(segments(rest) =~= seq![p.subrange(pos, e)] + (if e < p.len() {
        segments(p.skip(e + 1))
    } else {
        Seq::<Seq<char>>::empty()
    }));
}

/// The segments of a parameter path, parsed; list indexes from `bound` on
/// are reported as `Beyond`.
pub fn parse_path(param: &str, bound: usize) -> (segs: Vec<Segment>)
    ensures
        segs@.len() == segments(param@).len(),
        forall|i: int|
            0 <= i < segs@.len() ==> segment_ok(#[trigger] segs@[i], segments(param@)[i], bound as nat),
{
    let pc = chars_of(param);
    let n = pc.len();
    let mut segs: Vec<Segment> = Vec::new();
    let mut pos: usize = 0;
    let mut finished = false;
    let ghost mut done: Seq<Seq<char>> = seq![];
    assert(param@.skip(0) =~= param@);
    while !finished
        invariant
            pos <= n,
            n == pc@.len(),
            pc@ == param@,
            !finished ==> segments(param@) == done + segments(param@.skip(pos as int)),
            finished ==> segments(param@) == done,
            segs@.len() == done.len(),
            forall|i: int|
                0 <= i < segs@.len() ==> segment_ok(#[trigger] segs@[i], done[i], bound as nat),
        decreases 2 * (n - pos) + (if finished { 0int } else { 1int }),
    {
        let mut e = pos;
        while e < n && pc[e] != '.'
            invariant
                pos <= e <= n,
                n == pc@.len(),
                forall|j: int| pos <= j < e ==> pc@[j] != '.',
            decreases n - e,
        {
            e = e + 1;
        }
        proof {
            lemma_segments_step(param@, pos as int, e as int);
        }
        let seg = parse_segment(&pc, pos, e, bound);
        let ghost before = segs@;
        segs.push(seg);
        proof {
            let new_done = done.push(param@.subrange(pos as int, e as int));
            assert forall|i: int| 0 <= i < segs@.len() implies segment_ok(
                #[trigger] segs@[i],
                new_done[i],
                bound as nat,
            ) by {
                if i < before.len() {
                    assert(segs@[i] == before[i]);
                }
            }
            if e < n {
                assert(segments(param@) =~= new_done + segments(param@.skip(e + 1)));
            } else {
                assert(segments(param@) =~= new_done);
            }
            done = new_done;
        }
        if e < n {
            pos = e + 1;
        } else {
            finished = true;
        }
    }
    segs
}


// ---------------------------------------------------------------------------
// Resolving a path against the located lines.
// ---------------------------------------------------------------------------

/// The line has a colon.
pub open spec fn has_colon(l: Seq<char>) -> bool {
    find_char(l, ':') < l.len()
}

pub proof fn lemma_find_char_le(s: Seq<char>, c: char, k: int)
    requires
        0 <= k < s.len(),
        s[k] == c,
    ensures
        find_char(s, c) <= k,
    decreases k,
{
    if k > 0 && s[0] != c {
        lemma_find_char_le(s.drop_first(), c, k - 1);
    }
}

proof fn lemma_entry_colon(text: Seq<char>, sp: LineSpan, line: Seq<char>, key: Seq<char>)
    requires
        span_ok(text, sp, line),
        entry_sets_key(line, key),
    ensures
        has_colon(line),
{
    let es: int = if is_item(line) {
        sp.ts + 2
    } else {
        sp.ts as int
    };
    assert(entry(line) =~= text.subrange(es, sp.te as int));
    let en = entry(line);
    let q: int = if is_prefix_of(key + seq![':'], en) {
        assert(en.subrange(0, key.len() as int + 1)[key.len() as int] == ':');
        key.len() as int
    } else {
        assert(en.subrange(0, key.len() as int + 2)[key.len() as int + 1] == ':');
        key.len() as int + 1
    };
    assert(en[q] == ':');
    assert(line[es - sp.lo + q] == text[es + q]);
    lemma_find_char_le(line, ':', es - sp.lo + q);
}

/// The common frame of a resolution step: the located lines, and the parsed
/// path `segs` of the segments `ss`.
pub open spec fn resolve_ok(
    text: Seq<char>,
    spans: Seq<LineSpan>,
    ls: Seq<Seq<char>>,
    segs: Seq<Segment>,
    ss: Seq<Seq<char>>,
) -> bool {
    &&& spans_ok(text, spans, ls)
    &&& segs.len() == ss.len()
    &&& forall|i: int| 0 <= i < segs.len() ==> segment_ok(#[trigger] segs[i], ss[i], ls.len())
}

/// The line among `lo..hi`, entries at column `c`, that holds the value at
/// the path made of the segments from `si` on.
pub(crate) fn resolve_from(
    text: &Vec<char>,
    spans: &Vec<LineSpan>,
    segs: &Vec<Segment>,
    si: usize,
    lo: usize,
    hi: usize,
    c: usize,
    Ghost(ls): Ghost<Seq<Seq<char>>>,
    Ghost(ss): Ghost<Seq<Seq<char>>>,
) -> (r: Option<usize>)
    requires
        resolve_ok(text@, spans@, ls, segs@, ss),
        lo <= hi <= ls.len(),
        si <= segs@.len(),
    ensures
        r is None <==> resolve(ls, lo as int, hi as int, c as int, ss.skip(si as int)) is None,
        r matches Some(j) ==> resolve(ls, lo as int, hi as int, c as int, ss.skip(si as int))
            == Some(j as int) && j < ls.len() && has_colon(ls[j as int]),
    decreases segs@.len() - si,
{
    let ghost rest = ss.skip(si as int);
    if si >= segs.len() {
        assert(rest.len() == 0);
        return None;
    }
    let seg = &segs[si];
    assert(segment_ok(segs@[si as int], ss[si as int], ls.len()));
    assert(rest[0] == ss[si as int]);
    assert(rest.drop_first() =~= ss.skip(si + 1));
    let ghost name = seg_name(ss[si as int]);
    let j = find_key_at(text, spans, lo, hi, c, &seg.tight, &seg.spaced, Ghost(ls), Ghost(name));
    if j >= hi {
        return None;
    }
    proof {
        assert(span_ok(text@, spans@[j as int], ls[j as int]));
        lemma_entry_colon(text@, spans@[j as int], ls[j as int], name);
    }
    if si + 1 == segs.len() {
        return match seg.index {
            SegIndex::Plain => Some(j),
            _ => None,
        };
    }
    let r = find_value_end(text, spans, j + 1, hi, c, Ghost(ls));
    let p = find_content(text, spans, j + 1, r, Ghost(ls));
    if p >= r {
        return None;
    }
    let sp = spans[p];
    assert(span_ok(text@, spans@[p as int], ls[p as int]));
    let item = item_line(text, sp, Ghost(ls[p as int]));
    let pind = sp.ts - sp.lo;
    match seg.index {
        SegIndex::Plain => {
            if item {
                None
            } else {
                resolve_from(text, spans, segs, si + 1, j + 1, r, pind, Ghost(ls), Ghost(ss))
            }
        },
        SegIndex::At(n) => {
            if !item {
                return None;
            }
            let t = find_nth_item(text, spans, p, r, pind, n, Ghost(ls));
            if t >= r {
                return None;
            }
            let e = find_item_end(text, spans, t + 1, r, pind, Ghost(ls));
            let ec = entry_col_at(text, sp, Ghost(ls[p as int]));
            resolve_from(text, spans, segs, si + 1, t, e, ec, Ghost(ls), Ghost(ss))
        },
        SegIndex::Beyond => {
            if item {
                proof {
                    lemma_nth_item_absent(ls, p as int, r as int, pind as int, seg_index(ss[si as int]));
                }
            }
            None
        },
    }
}

} // verus!
