//! Character-level text utilities: the whitespace set, trimming, and
//! splitting a multi-line blob into lines.

use vstd::prelude::*;

verus! {

/// The whitespace characters that trimming and token separation honour.
pub open spec fn is_space(c: char) -> bool {
    c == ' ' || c == '\t' || c == '\n' || c == '\r' || c == '\u{b}' || c == '\u{c}'
}

/// `s` without its leading whitespace.
pub open spec fn drop_leading(s: Seq<char>) -> Seq<char>
    decreases s.len(),
{
    if s.len() > 0 && is_space(s.first()) {
        drop_leading(s.drop_first())
    } else {
        s
    }
}

/// `s` without its trailing whitespace.
pub open spec fn drop_trailing(s: Seq<char>) -> Seq<char>
    decreases s.len(),
{
    if s.len() > 0 && is_space(s.last()) {
        drop_trailing(s.drop_last())
    } else {
        s
    }
}

/// `s` without leading and trailing whitespace.
pub open spec fn trim_spec(s: Seq<char>) -> Seq<char> {
    drop_trailing(drop_leading(s))
}

proof fn lemma_drop_leading_subrange(s: Seq<char>, i: int)
    requires
        0 <= i <= s.len(),
        forall|j: int| 0 <= j < i ==> is_space(s[j]),
    ensures
        drop_leading(s) == drop_leading(s.subrange(i, s.len() as int)),
    decreases i,
{
    if i > 0 {
        lemma_drop_leading_subrange(s, i - 1);
        let t = s.subrange(i - 1, s.len() as int);
        assert(t.len() > 0 && is_space(t.first()));
        assert(t.drop_first() =~= s.subrange(i, s.len() as int));
    } else {
        assert(s.subrange(0, s.len() as int) =~= s);
    }
}

proof fn lemma_drop_trailing_subrange(s: Seq<char>, i: int)
    requires
        0 <= i <= s.len(),
        forall|j: int| i <= j < s.len() ==> is_space(s[j]),
    ensures
        drop_trailing(s) == drop_trailing(s.subrange(0, i)),
    decreases s.len() - i,
{
    if i < s.len() {
        lemma_drop_trailing_subrange(s, i + 1);
        let t = s.subrange(0, i + 1);
        assert(t.len() > 0 && is_space(t.last()));
        assert(t.drop_last() =~= s.subrange(0, i));
    } else {
        assert(s.subrange(0, s.len() as int) =~= s);
    }
}

/// Trim leading and trailing whitespace from a string slice.
pub fn trim_str<'a>(s: &'a str) -> (r: &'a str)
    ensures
        r@ == trim_spec(s@),
{
    let len = s.unicode_len();
    let mut start: usize = 0;
    while start < len
        invariant
            0 <= start <= len,
            len == s@.len(),
            forall|j: int| 0 <= j < start ==> is_space(s@[j]),
        ensures
            0 <= start <= len,
            forall|j: int| 0 <= j < start ==> is_space(s@[j]),
            start < len ==> !is_space(s@[start as int]),
        decreases len - start,
    {
        let c = s.get_char(start);
        if !(c == ' ' || c == '\t' || c == '\n' || c == '\r' || c == '\u{b}' || c == '\u{c}') {
            break ;
        }
        start += 1;
    }
    proof {
        lemma_drop_leading_subrange(s@, start as int);
    }
    let mut end: usize = len;
    while end > start
        invariant
            start <= end <= len,
            len == s@.len(),
            forall|j: int| end <= j < len ==> is_space(s@[j]),
        ensures
            start <= end <= len,
            forall|j: int| end <= j < len ==> is_space(s@[j]),
            end > start ==> !is_space(s@[end - 1]),
        decreases end,
    {
        let c = s.get_char(end - 1);
        if !(c == ' ' || c == '\t' || c == '\n' || c == '\r' || c == '\u{b}' || c == '\u{c}') {
            break ;
        }
        end -= 1;
    }
    let ghost mid = s@.subrange(start as int, len as int);
    proof {
        assert(drop_leading(s@) == mid);
        if end == start {
            assert(forall|j: int| start <= j < len ==> is_space(s@[j]));
            assert(forall|j: int| 0 <= j < mid.len() ==> is_space(mid[j]));
            lemma_drop_trailing_subrange(mid, 0);
            assert(mid.subrange(0, 0) =~= s@.subrange(start as int, start as int));
        } else {
            assert(!is_space(s@[end - 1]));
            assert(forall|j: int|
                end - start <= j < mid.len() ==> is_space(mid[j])) by {
                assert(forall|j: int| end <= j < len ==> is_space(s@[j]));
            }
            lemma_drop_trailing_subrange(mid, end - start);
            let t = mid.subrange(0, end - start);
            assert(t =~= s@.subrange(start as int, end as int));
            assert(t.len() > 0 && !is_space(t.last()));
        }
    }
    let r = s.substring_char(start, end);
    proof {
        assert(r@ == trim_spec(s@));
    }
    r
}

/// The index of the first line break at or after `i`, or the length.
pub open spec fn first_newline(s: Seq<char>, i: int) -> int
    decreases s.len() - i,
{
    if 0 <= i < s.len() {
        if s[i] == '\n' {
            i
        } else {
            first_newline(s, i + 1)
        }
    } else {
        s.len() as int
    }
}

/// One line segment with a trailing carriage return removed.
pub open spec fn chomp(s: Seq<char>) -> Seq<char> {
    if s.len() > 0 && s.last() == '\r' {
        s.drop_last()
    } else {
        s
    }
}

/// `s` split at line breaks, each segment chomped. A trailing line
/// break yields a final empty segment; callers skip blank segments.
pub open spec fn split_lines_spec(s: Seq<char>) -> Seq<Seq<char>>
    decreases s.len(),
{
    let k = first_newline(s, 0);
    if 0 <= k < s.len() {
        seq![chomp(s.subrange(0, k))] + split_lines_spec(
            s.subrange(k + 1, s.len() as int),
        )
    } else {
        seq![chomp(s)]
    }
}

proof fn lemma_first_newline_bounds(s: Seq<char>, i: int)
    requires
        0 <= i <= s.len(),
    ensures
        i <= first_newline(s, i) <= s.len(),
        first_newline(s, i) < s.len() ==> s[first_newline(s, i)] == '\n',
        forall|j: int| i <= j < first_newline(s, i) ==> s[j] != '\n',
    decreases s.len() - i,
{
    if i < s.len() && s[i] != '\n' {
        lemma_first_newline_bounds(s, i + 1);
    }
}

/// Split a blob into its lines, as [`split_lines_spec`] describes.
pub fn split_lines(s: &str) -> (r: Vec<String>)
    ensures
        r@.map_values(|x: String| x@) == split_lines_spec(s@),
{
    let len = s.unicode_len();
    let mut out: Vec<String> = Vec::new();
    let mut pos: usize = 0;
    proof {
        assert(s@.subrange(0, len as int) =~= s@);
        assert(Seq::<String>::empty().map_values(|x: String| x@) =~= Seq::<Seq<char>>::empty());
    }
    while pos < len
        invariant
            0 <= pos <= len,
            len == s@.len(),
            split_lines_spec(s@) =~= out@.map_values(|x: String| x@) + split_lines_spec(
                s@.subrange(pos as int, len as int),
            ),
            pos > 0 ==> pos <= len && s@[pos - 1] == '\n',
        decreases len - pos,
    {
        let ghost rest = s@.subrange(pos as int, len as int);
        let mut k: usize = pos;
        while k < len
            invariant
                pos <= k <= len,
                len == s@.len(),
                forall|j: int| pos <= j < k ==> s@[j] != '\n',
            ensures
                pos <= k <= len,
                forall|j: int| pos <= j < k ==> s@[j] != '\n',
                k < len ==> s@[k as int] == '\n',
            decreases len - k,
        {
            if s.get_char(k) == '\n' {
                break ;
            }
            k += 1;
        }
        proof {
            lemma_first_newline_bounds(rest, 0);
            let fk = first_newline(rest, 0);
            assert(forall|j: int|
                0 <= j < k - pos ==> rest[j] != '\n') by {
                assert(forall|j: int| pos <= j < k ==> s@[j] != '\n');
            }
            if k < len {
                assert(rest[k - pos] == s@[k as int]);
                assert(fk == k - pos) by {
                    if fk < k - pos {
                        assert(rest[fk] == '\n');
                    }
                }
            } else {
                assert(fk == rest.len()) by {
                    if fk < rest.len() {
                        assert(rest[fk] == '\n');
                    }
                }
            }
        }
        let seg_end: usize = if k > pos && s.get_char(k - 1) == '\r' {
            k - 1
        } else {
            k
        };
        let seg = s.substring_char(pos, seg_end);
        proof {
            assert(seg@ =~= chomp(rest.subrange(0, k - pos))) by {
                assert(rest.subrange(0, k - pos) =~= s@.subrange(pos as int, k as int));
                if k > pos && s@[k - 1] == '\r' {
                    assert(seg@ =~= s@.subrange(pos as int, k as int).drop_last());
                }
            }
        }
        out.push(seg.to_owned());
        if k < len {
            proof {
                assert(rest.subrange(k - pos + 1, rest.len() as int) =~= s@.subrange(
                    k + 1,
                    len as int,
                ));
                assert(split_lines_spec(rest) == seq![chomp(rest.subrange(0, k - pos))]
                    + split_lines_spec(s@.subrange(k + 1, len as int)));
            }
            pos = k + 1;
            proof {
                assert(split_lines_spec(s@) =~= out@.map_values(|x: String| x@)
                    + split_lines_spec(s@.subrange(pos as int, len as int)));
            }
        } else {
            proof {
                assert(first_newline(rest, 0) == rest.len());
                assert(split_lines_spec(rest) == seq![chomp(rest)]);
                assert(rest.subrange(0, k - pos) =~= rest);
                assert(split_lines_spec(s@) =~= out@.map_values(|x: String| x@));
            }
            return out;
        }
    }
    proof {
        if pos == 0 {
            assert(s@.len() == 0);
            assert(s@.subrange(0, 0) =~= s@);
            assert(first_newline(s@, 0) == 0);
            assert(split_lines_spec(s@) == seq![chomp(s@)]);
            assert(chomp(s@) =~= Seq::<char>::empty());
        } else {
            let rest = s@.subrange(pos as int, len as int);
            assert(rest.len() == 0);
            assert(first_newline(rest, 0) == 0);
            assert(split_lines_spec(rest) == seq![chomp(rest)]);
            assert(chomp(rest) =~= Seq::<char>::empty());
        }
    }
    let ghost pre = out@;
    let tail = String::new();
    out.push(tail);
    proof {
        assert(out@.map_values(|x: String| x@) =~= pre.map_values(|x: String| x@) + seq![
            Seq::<char>::empty(),
        ]);
        assert(split_lines_spec(s@) =~= out@.map_values(|x: String| x@));
    }
    out
}

/// Append one character to a string.
///
/// Relies on `String::push`: appends the character to the end of the
/// string, and nothing else.
#[verifier::external_body]
pub(crate) fn push_char(s: &mut String, c: char)
    ensures
        final(s)@ == old(s)@.push(c),
{
    s.push(c);
}

/// Whether two string slices hold the same characters.
pub fn str_eq(a: &str, b: &str) -> (r: bool)
    ensures
        r == (a@ == b@),
{
    let la = a.unicode_len();
    let lb = b.unicode_len();
    if la != lb {
        return false;
    }
    let mut i: usize = 0;
    while i < la
        invariant
            0 <= i <= la,
            la == a@.len(),
            la == b@.len(),
            forall|j: int| 0 <= j < i ==> a@[j] == b@[j],
        decreases la - i,
    {
        if a.get_char(i) != b.get_char(i) {
            return false;
        }
        i += 1;
    }
    proof {
        assert(a@ =~= b@);
    }
    true
}

} // verus!
