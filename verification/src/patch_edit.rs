//! Text-level editing of a YAML patch: override one parameter value.
//!
//! The patch is edited as text, line by line, so that comments, ordering and
//! formatting of every other line survive unchanged. Which line holds the
//! value at a dotted path is decided in `yaml_path`.

use vstd::prelude::*;
use vstd::string::*;
use crate::text::{
    chars_of, find_char, join_lines, lemma_find_char, lemma_find_char_range, lemma_join_push,
    split_lines,
};
use crate::yaml_path::{
    has_colon, lemma_find_char_le, param_line, parse_path, resolve_from, segments, span_ok,
    spans_ok, spans_of,
};

verus! {

/// Why a parameter override could not be applied.
#[derive(Debug, Clone, PartialEq, Eq)]
pub enum PatchEditError {
    /// The patch has no value at the parameter's path.
    ParamNotFound { param: String },
}

/// The line as the editor writes it: everything up to and including its first
/// colon, a space, and the new value.
pub open spec fn rewrite_value(line: Seq<char>, value: Seq<char>) -> Seq<char> {
    line.take(find_char(line, ':') + 1) + seq![' '] + value
}

/// The lines of the patch after the value on line `j` is replaced.
pub open spec fn edited_lines(yaml: Seq<char>, j: int, value: Seq<char>) -> Seq<Seq<char>> {
    split_lines(yaml).update(j, rewrite_value(split_lines(yaml)[j], value))
}

/// The override touches one line: the edited patch has as many lines as the
/// patch it came from, and every line but the one holding the value is kept
/// as it was.
pub proof fn law_other_lines_kept(yaml: Seq<char>, j: int, value: Seq<char>)
    requires
        0 <= j < split_lines(yaml).len(),
    ensures
        edited_lines(yaml, j, value).len() == split_lines(yaml).len(),
        edited_lines(yaml, j, value)[j] == rewrite_value(split_lines(yaml)[j], value),
        forall|i: int|
            0 <= i < split_lines(yaml).len() && i != j ==> #[trigger] edited_lines(yaml, j, value)[i]
                == split_lines(yaml)[i],
{
}

proof fn lemma_find_char_before(s: Seq<char>, c: char, j: int)
    requires
        0 <= j < find_char(s, c),
        find_char(s, c) <= s.len(),
    ensures
        s[j] != c,
    decreases j,
{
    if s.len() > 0 && s[0] != c && j > 0 {
        lemma_find_char_before(s.drop_first(), c, j - 1);
    }
}

/// Writing the same value twice gives the line that writing it once gives:
/// the rewritten line keeps everything up to its first colon.
pub proof fn law_rewrite_idempotent(line: Seq<char>, value: Seq<char>)
    requires
        has_colon(line),
    ensures
        has_colon(rewrite_value(line, value)),
        rewrite_value(rewrite_value(line, value), value) == rewrite_value(line, value),
{
    let q = find_char(line, ':');
    let e = rewrite_value(line, value);
    lemma_find_char_range(line, ':');
    lemma_find_char_is(line, ':');
    assert forall|j: int| 0 <= j < q implies e[j] != ':' by {
        lemma_find_char_before(line, ':', j);
        assert(e[j] == line[j]);
    }
    assert(e[q] == ':');
    lemma_find_char(e, ':', q);
    assert(e.take(q + 1) =~= line.take(q + 1));
}

proof fn lemma_find_char_is(s: Seq<char>, c: char)
    requires
        find_char(s, c) < s.len(),
    ensures
        s[find_char(s, c)] == c,
    decreases s.len(),
{
    if s.len() > 0 && s[0] != c {
        let t = s.drop_first();
        lemma_find_char_is(t, c);
        let k = find_char(t, c);
        lemma_find_char_range(t, c);
        assert(find_char(s, c) == 1 + k);
        assert(s[k + 1] == t[k]);
    }
}

/// Overrides the value at the dotted parameter path `param` (such as
/// `engine.sample_rate` or `clouds[0].density`) in the YAML text `yaml`.
///
/// The line that holds the value at the path (see `yaml_path`) keeps
/// everything up to its first colon, followed by a space and `value`; every
/// other line is kept. The lines are joined with `\n`. When the patch has no
/// value at the path, `ParamNotFound` is returned.
pub fn set_param_value(yaml: &str, param: &str, value: &str) -> (result: Result<
    String,
    PatchEditError,
>)
    ensures
        match param_line(yaml@, param@) {
            Some(j) => {
                &&& 0 <= j < split_lines(yaml@).len()
                &&& result matches Ok(text)
                &&& text@ == join_lines(edited_lines(yaml@, j, value@))
            },
            None => result matches Err(PatchEditError::ParamNotFound { param: p }) && p@
                == param@,
        },
{
    let yc = chars_of(yaml);
    let spans = spans_of(&yc);
    let ghost ls = split_lines(yaml@);
    let ghost ss = segments(param@);
    let segs = parse_path(param, spans.len());
    assert(ss.skip(0) =~= ss);
    let found = resolve_from(&yc, &spans, &segs, 0, 0, spans.len(), 0, Ghost(ls), Ghost(ss));
    let j = match found {
        None => {
            return Err(PatchEditError::ParamNotFound { param: param.to_owned() });
        },
        Some(j) => j,
    };
    let sp = spans[j];
    assert(span_ok(yc@, spans@[j as int], ls[j as int]));
    let ghost line = ls[j as int];
    let mut c: usize = sp.lo;
    while c < sp.hi && yc[c] != ':'
        invariant
            sp.lo <= c <= sp.hi,
            sp.hi <= yc@.len(),
            forall|k: int| sp.lo <= k < c ==> yc@[k] != ':',
        decreases sp.hi - c,
    {
        c = c + 1;
    }
    proof {
        lemma_find_char(line, ':', c - sp.lo);
    }
    let ghost target = edited_lines(yaml@, j as int, value@);
    let n = spans.len();
    let mut out = String::new();
    let mut i: usize = 0;
    assert(target.take(0) =~= Seq::<Seq<char>>::empty());
    while i < n
        invariant
            i <= n,
            n == ls.len(),
            j < n,
            sp.lo <= c < sp.hi,
            c - sp.lo == find_char(line, ':'),
            line == ls[j as int],
            yc@ == yaml@,
            spans_ok(yc@, spans@, ls),
            sp == spans@[j as int],
            target == edited_lines(yaml@, j as int, value@),
            ls == split_lines(yaml@),
            out@ == join_lines(target.take(i as int)),
        decreases n - i,
    {
        let si = spans[i];
        assert(span_ok(yc@, spans@[i as int], ls[i as int]));
        assert(span_ok(yc@, spans@[j as int], ls[j as int]));
        if i > 0 {
            out.append("\n");
        }
        if i == j {
            out.append(yaml.substring_char(sp.lo, c + 1));
            out.append(" ");
            out.append(value);
        } else {
            out.append(yaml.substring_char(si.lo, si.hi));
        }
        proof {
            reveal_strlit("\n");
            reveal_strlit(" ");
            lemma_join_push(target.take(i as int), target[i as int]);
            assert(target.take(i + 1) =~= target.take(i as int).push(target[i as int]));
            if i == j {
                assert(line.take(c - sp.lo + 1) =~= yc@.subrange(sp.lo as int, c + 1));
            }
        }
        i = i + 1;
    }
    assert(target.take(n as int) =~= target);
    Ok(out)
}

} // verus!
