//! Non-fatal configuration problems, collected rather than thrown, and the
//! helpers that locate and explain them.

use vstd::prelude::*;
use vstd::utf8::*;

use core::ops::Range;

use crate::text::{chars_of, concat2, concat3, str_views, to_decimal, decimal};

verus! {

// ---------------------------------------------------------------------------
// Line and column
// ---------------------------------------------------------------------------

/// Number of bytes in the UTF-8 encoding of `c`.
pub open spec fn char_width(c: char) -> nat {
    encode_scalar(c as u32).len()
}

/// The longest prefix of `s` whose UTF-8 encoding fits in `offset` bytes.
pub open spec fn chars_within(s: Seq<char>, offset: int) -> Seq<char>
    decreases s.len(),
{
    if s.len() == 0 || char_width(s[0]) > offset {
        Seq::empty()
    } else {
        seq![s[0]] + chars_within(s.drop_first(), offset - char_width(s[0]))
    }
}

/// One-based line on which the text `p` ends.
pub open spec fn line_of(p: Seq<char>) -> nat
    decreases p.len(),
{
    if p.len() == 0 {
        1
    } else if p.last() == '\n' {
        line_of(p.drop_last()) + 1
    } else {
        line_of(p.drop_last())
    }
}

/// One-based column at which the text `p` ends: one more than the number of
/// characters after its last newline.
pub open spec fn column_of(p: Seq<char>) -> nat
    decreases p.len(),
{
    if p.len() == 0 {
        1
    } else if p.last() == '\n' {
        1
    } else {
        column_of(p.drop_last()) + 1
    }
}

/// Where byte `offset` of `text` lies, as a one-based line and column, the
/// column counting characters. Offsets past the end are clamped to it.
pub open spec fn spec_line_col(text: Seq<char>, offset: usize) -> (nat, nat) {
    (line_of(located_chars(text, offset)), column_of(located_chars(text, offset)))
}

/// The byte offset that [`spec_line_col`] locates: `offset`, clamped to the
/// length of the text's encoding.
pub open spec fn clamped_offset(text: Seq<char>, offset: usize) -> int {
    let len = encode_utf8(text).len();
    if offset < len {
        offset as int
    } else {
        len as int
    }
}

/// The characters before the clamped offset.
pub open spec fn located_chars(text: Seq<char>, offset: usize) -> Seq<char> {
    chars_within(text, clamped_offset(text, offset))
}

/// True when `offset` may be used to locate text: it is past the end, or it
/// falls on a character boundary.
pub open spec fn locatable(text: Seq<char>, offset: usize) -> bool {
    &&& encode_utf8(text).len() < usize::MAX
    &&& (offset >= encode_utf8(text).len() || is_char_boundary(encode_utf8(text), offset as int))
}

/// Number of newline characters in `p`.
pub open spec fn newline_count(p: Seq<char>) -> nat {
    p.filter(|c: char| c == '\n').len()
}

/// What [`spec_line_col`] counts, written out: the characters it looks at are
/// the longest prefix of the text that fits in the clamped offset; the line is
/// one more than the newlines among them, and the column one more than the
/// characters after the last of those newlines (or than all of them, where
/// there is none).
pub proof fn line_and_column_in_closed_form(text: Seq<char>, offset: usize)
    ensures
        located_chars(text, offset).len() <= text.len(),
        located_chars(text, offset) == text.take(located_chars(text, offset).len() as int),
        encode_utf8(located_chars(text, offset)).len() <= clamped_offset(text, offset),
        located_chars(text, offset).len() < text.len() ==> encode_utf8(
            located_chars(text, offset),
        ).len() + char_width(text[located_chars(text, offset).len() as int]) > clamped_offset(
            text,
            offset,
        ),
        spec_line_col(text, offset).0 == 1 + newline_count(located_chars(text, offset)),
        (forall|j: int|
            0 <= j < located_chars(text, offset).len() ==> #[trigger] located_chars(text, offset)[j]
                != '\n') ==> spec_line_col(text, offset).1 == located_chars(text, offset).len() + 1,
        forall|i: int|
            0 <= i < located_chars(text, offset).len() && #[trigger] located_chars(text, offset)[i]
                == '\n' && (forall|j: int|
                i < j < located_chars(text, offset).len() ==> located_chars(text, offset)[j] != '\n')
                ==> spec_line_col(text, offset).1 == located_chars(text, offset).len() - i,
{
    let p = located_chars(text, offset);
    lemma_chars_within_prefix(text, clamped_offset(text, offset));
    lemma_line_of_counts(p);
    lemma_column_of_counts(p);
}

proof fn lemma_chars_within_prefix(s: Seq<char>, offset: int)
    requires
        offset >= 0,
    ensures
        chars_within(s, offset).len() <= s.len(),
        chars_within(s, offset) == s.take(chars_within(s, offset).len() as int),
        encode_utf8(chars_within(s, offset)).len() <= offset,
        chars_within(s, offset).len() < s.len() ==> encode_utf8(chars_within(s, offset)).len()
            + char_width(s[chars_within(s, offset).len() as int]) > offset,
    decreases s.len(),
{
    if s.len() == 0 || char_width(s[0]) > offset {
        assert(s.take(0) =~= Seq::<char>::empty());
    } else {
        let rest = s.drop_first();
        let q = chars_within(rest, offset - char_width(s[0]));
        lemma_chars_within_prefix(rest, offset - char_width(s[0]));
        let p = seq![s[0]] + q;
        assert(p[0] == s[0]);
        assert(p.drop_first() =~= q);
        assert(p =~= s.take(p.len() as int)) by {
            assert forall|i: int| 0 <= i < p.len() implies p[i] == s.take(p.len() as int)[i] by {
                if i > 0 {
                    assert(q[i - 1] == rest.take(q.len() as int)[i - 1]);
                }
            }
        }
        if p.len() < s.len() {
            assert(s[p.len() as int] == rest[q.len() as int]);
        }
    }
}

proof fn lemma_line_of_counts(p: Seq<char>)
    ensures
        line_of(p) == 1 + newline_count(p),
    decreases p.len(),
{
    if p.len() > 0 {
        let q = p.drop_last();
        lemma_line_of_counts(q);
        let f = |c: char| c == '\n';
        reveal(Seq::filter);
        assert(p.filter(f) == if p.last() == '\n' {
            q.filter(f).push(p.last())
        } else {
            q.filter(f)
        });
    }
}

proof fn lemma_column_of_counts(p: Seq<char>)
    ensures
        (forall|j: int| 0 <= j < p.len() ==> p[j] != '\n') ==> column_of(p) == p.len() + 1,
        forall|i: int|
            0 <= i < p.len() && p[i] == '\n' && (forall|j: int| i < j < p.len() ==> p[j] != '\n')
                ==> column_of(p) == p.len() - i,
    decreases p.len(),
{
    if p.len() > 0 {
        let q = p.drop_last();
        lemma_column_of_counts(q);
        if p.last() != '\n' {
            if forall|j: int| 0 <= j < p.len() ==> p[j] != '\n' {
                assert forall|j: int| 0 <= j < q.len() implies q[j] != '\n' by {
                    assert(q[j] == p[j]);
                }
            }
            assert forall|i: int|
                0 <= i < p.len() && p[i] == '\n' && (forall|j: int| i < j < p.len() ==> p[j] != '\n')
                implies column_of(p) == p.len() - i by {
                assert(i < q.len());
                assert(q[i] == p[i]);
                assert forall|j: int| i < j < q.len() implies q[j] != '\n' by {
                    assert(q[j] == p[j]);
                }
            }
        } else {
            assert forall|i: int|
                0 <= i < p.len() && p[i] == '\n' && (forall|j: int| i < j < p.len() ==> p[j] != '\n')
                implies column_of(p) == p.len() - i by {
                if i < p.len() - 1 {
                    assert(p[p.len() - 1] != '\n');
                }
            }
        }
    }
}

fn utf8_width(c: char) -> (w: usize)
    ensures
        w == char_width(c),
        1 <= w <= 4,
{
    let u = c as u32;
    if u < 0x80 {
        1
    } else if u < 0x800 {
        2
    } else if u < 0x10000 {
        3
    } else {
        4
    }
}

proof fn lemma_chars_within_step(s: Seq<char>, k: int, offset: int, used: int)
    requires
        0 <= k < s.len(),
        chars_within(s, offset) == s.take(k) + chars_within(s.skip(k), offset - used),
        used + char_width(s[k]) <= offset,
    ensures
        chars_within(s, offset) == s.take(k + 1) + chars_within(s.skip(k + 1), offset - used
            - char_width(s[k])),
{
    assert(s.skip(k)[0] == s[k]);
    assert(s.skip(k).drop_first() =~= s.skip(k + 1));
    assert(s.take(k) + seq![s[k]] =~= s.take(k + 1));
    assert(s.take(k) + (seq![s[k]] + chars_within(s.skip(k + 1), offset - used - char_width(s[k])))
        =~= s.take(k + 1) + chars_within(s.skip(k + 1), offset - used - char_width(s[k])));
}

/// Convert a byte offset into a one-based line and column.
///
/// The column counts characters rather than bytes, so that it lines up with
/// what an editor shows for non-ASCII text.
pub fn line_col(text: &str, offset: usize) -> (res: (usize, usize))
    requires
        locatable(text@, offset),
    ensures
        res.0 as nat == spec_line_col(text@, offset).0,
        res.1 as nat == spec_line_col(text@, offset).1,
{
    let clamped = if offset < text.len() { offset } else { text.len() };
    let chars = chars_of(text);
    let ghost s = text@;
    let mut line: usize = 1;
    let mut column: usize = 1;
    let mut used: usize = 0;
    let mut k: usize = 0;
    assert(s.skip(0) =~= s);
    assert(s.take(0) + chars_within(s.skip(0), clamped as int) =~= chars_within(s, clamped as int));
    loop
        invariant_except_break
            chars@ == s,
            k <= s.len(),
            used <= clamped,
            clamped < usize::MAX,
            k <= used,
            chars_within(s, clamped as int) == s.take(k as int) + chars_within(
                s.skip(k as int),
                clamped - used,
            ),
            line as nat == line_of(s.take(k as int)),
            column as nat == column_of(s.take(k as int)),
            line <= k + 1,
            column <= k + 1,
        ensures
            line as nat == line_of(chars_within(s, clamped as int)),
            column as nat == column_of(chars_within(s, clamped as int)),
        decreases chars.len() - k,
    {
        if k >= chars.len() {
            assert(s.skip(k as int) =~= Seq::<char>::empty());
            assert(s.take(k as int) =~= s);
            assert(chars_within(s.skip(k as int), clamped - used) =~= Seq::<char>::empty());
            assert(chars_within(s, clamped as int) =~= s);
            break;
        }
        let c = chars[k];
        let w = utf8_width(c);
        if w > clamped - used {
            assert(s.skip(k as int)[0] == c);
            assert(chars_within(s.skip(k as int), clamped - used) =~= Seq::<char>::empty());
            assert(chars_within(s, clamped as int) =~= s.take(k as int));
            break;
        }
        proof {
            lemma_chars_within_step(s, k as int, clamped as int, used as int);
            assert(s.take(k + 1).drop_last() =~= s.take(k as int));
        }
        if c == '\n' {
            line = line + 1;
            column = 1;
        } else {
            column = column + 1;
        }
        used = used + w;
        k = k + 1;
    }
    (line, column)
}


// ---------------------------------------------------------------------------
// Suggestions
// ---------------------------------------------------------------------------

/// The largest length difference for which a prefix still counts as a typo.
///
/// Without a cap, `Naming` would look like a near miss for
/// `Naming/RuleNameLenght` and beat the cop the user actually meant.
pub const MAX_PREFIX_GAP: usize = 4;

/// The smallest of three numbers.
pub open spec fn min3(x: nat, y: nat, z: nat) -> nat {
    if x <= y && x <= z {
        x
    } else if y <= z {
        y
    } else {
        z
    }
}

/// Levenshtein edit distance between two character sequences.
pub open spec fn edit_distance(a: Seq<char>, b: Seq<char>) -> nat
    decreases a.len() + b.len(),
{
    if a.len() == 0 {
        b.len()
    } else if b.len() == 0 {
        a.len()
    } else {
        min3(
            edit_distance(a.drop_last(), b) + 1,
            edit_distance(a, b.drop_last()) + 1,
            edit_distance(a.drop_last(), b.drop_last()) + if a.last() == b.last() {
                0nat
            } else {
                1nat
            },
        )
    }
}

/// True if `p` is a prefix of `s`.
pub open spec fn starts_with(s: Seq<char>, p: Seq<char>) -> bool {
    p.len() <= s.len() && s.take(p.len() as int) == p
}

/// True if either sequence is a prefix of the other, both are non-empty, and
/// their lengths differ by at most [`MAX_PREFIX_GAP`].
pub open spec fn near_prefix(a: Seq<char>, b: Seq<char>) -> bool {
    &&& a.len() > 0
    &&& b.len() > 0
    &&& (starts_with(a, b) || starts_with(b, a))
    &&& a.len() <= b.len() + MAX_PREFIX_GAP
    &&& b.len() <= a.len() + MAX_PREFIX_GAP
}

/// How far a candidate is from what the user wrote: an abbreviation counts as
/// a single edit, anything else by edit distance.
pub open spec fn suggestion_distance(input: Seq<char>, candidate: Seq<char>) -> nat {
    if near_prefix(input, candidate) {
        1
    } else {
        edit_distance(input, candidate)
    }
}

/// The largest distance still worth suggesting, which grows with the length
/// of the input.
pub open spec fn suggestion_threshold(len: nat) -> nat {
    if len <= 3 {
        1
    } else if len <= 9 {
        2
    } else {
        3
    }
}

/// True if `candidate` is close enough to `input` to be suggested.
pub open spec fn close_enough(input: Seq<char>, candidate: Seq<char>) -> bool {
    suggestion_distance(input, candidate) <= suggestion_threshold(input.len())
}

/// How many edits a suggestion may be away grows with the input: one for at
/// most three characters, two for four to nine, three for ten or more. An
/// abbreviation is always close enough.
pub proof fn longer_inputs_tolerate_more_edits(input: Seq<char>, candidate: Seq<char>)
    ensures
        input.len() <= 3 ==> (close_enough(input, candidate) <==> near_prefix(input, candidate)
            || edit_distance(input, candidate) <= 1),
        4 <= input.len() <= 9 ==> (close_enough(input, candidate) <==> near_prefix(input, candidate)
            || edit_distance(input, candidate) <= 2),
        10 <= input.len() ==> (close_enough(input, candidate) <==> near_prefix(input, candidate)
            || edit_distance(input, candidate) <= 3),
{
}

/// True if `cands[i]` is the suggestion for `input`: close enough, no farther
/// than any close candidate, and strictly closer than every close candidate
/// before it.
pub open spec fn is_best_suggestion(input: Seq<char>, cands: Seq<Seq<char>>, i: int) -> bool {
    &&& 0 <= i < cands.len()
    &&& close_enough(input, cands[i])
    &&& forall|j: int|
        0 <= j < cands.len() && close_enough(input, #[trigger] cands[j]) ==> suggestion_distance(
            input,
            cands[i],
        ) <= suggestion_distance(input, cands[j])
    &&& forall|j: int|
        0 <= j < i && close_enough(input, #[trigger] cands[j]) ==> suggestion_distance(
            input,
            cands[i],
        ) < suggestion_distance(input, cands[j])
}

/// The suggestion for `input` among `cands`, if any candidate is close enough.
pub open spec fn suggestion(input: Seq<char>, cands: Seq<Seq<char>>) -> Option<Seq<char>> {
    if exists|i: int| is_best_suggestion(input, cands, i) {
        Some(cands[choose|i: int| is_best_suggestion(input, cands, i)])
    } else {
        None
    }
}

proof fn lemma_edit_distance_bound(a: Seq<char>, b: Seq<char>)
    ensures
        edit_distance(a, b) <= if a.len() <= b.len() {
            b.len()
        } else {
            a.len()
        },
    decreases a.len() + b.len(),
{
    if a.len() > 0 && b.len() > 0 {
        lemma_edit_distance_bound(a.drop_last(), b.drop_last());
    }
}

/// The edit distance is a distance on character sequences: it is zero from a
/// sequence to itself, the same in both directions, at least the difference of
/// the two lengths and at most the larger length; from the empty sequence it is
/// the other sequence's length.
pub proof fn edit_distance_is_a_distance(a: Seq<char>, b: Seq<char>)
    ensures
        edit_distance(a, a) == 0,
        edit_distance(a, b) == edit_distance(b, a),
        edit_distance(Seq::<char>::empty(), b) == b.len(),
        a.len() <= b.len() ==> b.len() - a.len() <= edit_distance(a, b) <= b.len(),
        b.len() <= a.len() ==> a.len() - b.len() <= edit_distance(a, b) <= a.len(),
{
    lemma_edit_distance_to_itself(a);
    lemma_edit_distance_symmetric(a, b);
    lemma_edit_distance_bound(a, b);
    lemma_edit_distance_at_least_gap(a, b);
}

proof fn lemma_edit_distance_to_itself(a: Seq<char>)
    ensures
        edit_distance(a, a) == 0,
    decreases a.len(),
{
    if a.len() > 0 {
        lemma_edit_distance_to_itself(a.drop_last());
    }
}

proof fn lemma_edit_distance_symmetric(a: Seq<char>, b: Seq<char>)
    ensures
        edit_distance(a, b) == edit_distance(b, a),
    decreases a.len() + b.len(),
{
    if a.len() > 0 && b.len() > 0 {
        lemma_edit_distance_symmetric(a.drop_last(), b);
        lemma_edit_distance_symmetric(a, b.drop_last());
        lemma_edit_distance_symmetric(a.drop_last(), b.drop_last());
    }
}

proof fn lemma_edit_distance_at_least_gap(a: Seq<char>, b: Seq<char>)
    ensures
        a.len() <= b.len() ==> b.len() - a.len() <= edit_distance(a, b),
        b.len() <= a.len() ==> a.len() - b.len() <= edit_distance(a, b),
    decreases a.len() + b.len(),
{
    if a.len() > 0 && b.len() > 0 {
        lemma_edit_distance_at_least_gap(a.drop_last(), b);
        lemma_edit_distance_at_least_gap(a, b.drop_last());
        lemma_edit_distance_at_least_gap(a.drop_last(), b.drop_last());
    }
}

/// Levenshtein edit distance between two strings, counting characters.
fn levenshtein(a: &Vec<char>, b: &Vec<char>) -> (res: usize)
    ensures
        res == edit_distance(a@, b@),
{
    if a.len() == 0 {
        return b.len();
    }
    if b.len() == 0 {
        return a.len();
    }
    let alen = a.len();
    let blen = b.len();
    let mut previous: Vec<usize> = Vec::new();
    previous.push(0);
    let mut j: usize = 0;
    while j < blen
        invariant
            blen == b@.len(),
            j <= blen,
            previous@.len() == j + 1,
            forall|k: int| 0 <= k <= j ==> #[trigger] previous@[k] == k,
        decreases blen - j,
    {
        previous.push(j + 1);
        j = j + 1;
    }
    let row_len = previous.len();
    assert(row_len == blen + 1);
    proof {
        assert forall|k: int| 0 <= k <= blen implies #[trigger] previous@[k] == edit_distance(
            a@.take(0),
            b@.take(k),
        ) by {
            assert(a@.take(0).len() == 0);
        }
    }
    let mut i: usize = 0;
    while i < alen
        invariant
            alen == a@.len(),
            blen == b@.len(),
            0 < blen,
            blen < usize::MAX,
            i <= alen,
            previous@.len() == blen + 1,
            forall|k: int|
                0 <= k <= blen ==> #[trigger] previous@[k] == edit_distance(
                    a@.take(i as int),
                    b@.take(k),
                ),
        decreases alen - i,
    {
        let mut current: Vec<usize> = Vec::new();
        current.push(i + 1);
        proof {
            assert(a@.take(i + 1).len() == i + 1);
            assert(b@.take(0).len() == 0);
        }
        let mut j: usize = 0;
        while j < blen
            invariant
                alen == a@.len(),
                blen == b@.len(),
                i < alen,
                blen < usize::MAX,
                j <= blen,
                previous@.len() == blen + 1,
                forall|k: int|
                    0 <= k <= blen ==> #[trigger] previous@[k] == edit_distance(
                        a@.take(i as int),
                        b@.take(k),
                    ),
                current@.len() == j + 1,
                forall|k: int|
                    0 <= k <= j ==> #[trigger] current@[k] == edit_distance(
                        a@.take(i + 1),
                        b@.take(k),
                    ),
            decreases blen - j,
        {
            proof {
                lemma_edit_distance_bound(a@.take(i as int), b@.take(j + 1));
                lemma_edit_distance_bound(a@.take(i as int), b@.take(j as int));
                assert(previous@[j + 1] == edit_distance(a@.take(i as int), b@.take(j + 1)));
                assert(previous@[j as int] == edit_distance(a@.take(i as int), b@.take(j as int)));
            }
            let cost: usize = if a[i] == b[j] { 0 } else { 1 };
            let left = current[j];
            let up = previous[j + 1];
            let diag = previous[j];
            let m = if left < up { left } else { up };
            let v = if m + 1 < diag + cost { m + 1 } else { diag + cost };
            proof {
                let x = a@.take(i + 1);
                let y = b@.take(j + 1);
                assert(x.drop_last() =~= a@.take(i as int));
                assert(y.drop_last() =~= b@.take(j as int));
                assert(x.last() == a@[i as int]);
                assert(y.last() == b@[j as int]);
                assert(v == edit_distance(x, y));
            }
            current.push(v);
            j = j + 1;
        }
        previous = current;
        i = i + 1;
    }
    proof {
        assert(a@.take(alen as int) =~= a@);
        assert(b@.take(blen as int) =~= b@);
    }
    previous[blen]
}

/// True if `p` is a prefix of `s`.
fn has_prefix(s: &Vec<char>, p: &Vec<char>) -> (res: bool)
    ensures
        res == starts_with(s@, p@),
{
    if p.len() > s.len() {
        return false;
    }
    let mut i: usize = 0;
    while i < p.len()
        invariant
            p@.len() <= s@.len(),
            i <= p@.len(),
            forall|k: int| 0 <= k < i ==> s@[k] == p@[k],
        decreases p@.len() - i,
    {
        if s[i] != p[i] {
            assert(s@.take(p@.len() as int)[i as int] != p@[i as int]);
            return false;
        }
        i = i + 1;
    }
    assert(s@.take(p@.len() as int) =~= p@);
    true
}

/// True if either string is a short prefix of the other.
///
/// "Short" means within [`MAX_PREFIX_GAP`] characters, so `warn` counts as an
/// abbreviation of `warning` while a bare category does not count as an
/// abbreviation of a fully qualified cop name.
fn is_prefix_of_either(a: &Vec<char>, b: &Vec<char>) -> (res: bool)
    ensures
        res == near_prefix(a@, b@),
{
    if a.len() == 0 || b.len() == 0 {
        return false;
    }
    if !has_prefix(a, b) && !has_prefix(b, a) {
        return false;
    }
    let gap = if a.len() >= b.len() { a.len() - b.len() } else { b.len() - a.len() };
    gap <= MAX_PREFIX_GAP
}

/// Pick the closest candidate to `input`, if one is close enough to be worth
/// suggesting.
///
/// Uses Levenshtein distance with a threshold that scales with the length of
/// the input, so short keys require a near-exact match and long keys tolerate a
/// couple of typos. On a tie the earlier candidate wins.
pub fn did_you_mean<'a>(input: &str, candidates: &[&'a str]) -> (res: Option<&'a str>)
    ensures
        match res {
            Some(s) => exists|i: int|
                is_best_suggestion(input@, str_views(candidates@), i) && s == candidates@[i],
            None => forall|i: int|
                0 <= i < candidates@.len() ==> !close_enough(input@, #[trigger] candidates@[i]@),
        },
        res matches Some(s) ==> suggestion(input@, str_views(candidates@)) == Some(s@),
        res is None ==> suggestion(input@, str_views(candidates@)) is None,
{
    let input_chars = chars_of(input);
    let n = input_chars.len();
    let threshold: usize = if n <= 3 { 1 } else if n <= 9 { 2 } else { 3 };
    let ghost cands = str_views(candidates@);
    let mut best: Option<(usize, usize)> = None;
    let mut i: usize = 0;
    while i < candidates.len()
        invariant
            input_chars@ == input@,
            threshold == suggestion_threshold(input@.len()),
            cands == str_views(candidates@),
            cands.len() == candidates@.len(),
            i <= candidates@.len(),
            match best {
                Some((d, b)) => {
                    &&& b < i
                    &&& d == suggestion_distance(input@, cands[b as int])
                    &&& close_enough(input@, cands[b as int])
                    &&& forall|j: int|
                        0 <= j < i && close_enough(input@, #[trigger] cands[j]) ==> d
                            <= suggestion_distance(input@, cands[j])
                    &&& forall|j: int|
                        0 <= j < b && close_enough(input@, #[trigger] cands[j]) ==> d
                            < suggestion_distance(input@, cands[j])
                },
                None => forall|j: int| 0 <= j < i ==> !close_enough(input@, #[trigger] cands[j]),
            },
        decreases candidates@.len() - i,
    {
        let cand = chars_of(candidates[i]);
        assert(cands[i as int] == candidates@[i as int]@);
        let d = if is_prefix_of_either(&input_chars, &cand) {
            1
        } else {
            levenshtein(&input_chars, &cand)
        };
        if d <= threshold {
            match best {
                Some((bd, _)) => {
                    if bd > d {
                        best = Some((d, i));
                    }
                },
                None => {
                    best = Some((d, i));
                },
            }
        }
        i = i + 1;
    }
    match best {
        Some((_, b)) => {
            proof {
                assert(is_best_suggestion(input@, cands, b as int));
                let k = choose|k: int| is_best_suggestion(input@, cands, k);
                if k < b {
                    assert(false);
                } else if k > b {
                    assert(false);
                }
            }
            Some(candidates[b])
        },
        None => {
            proof {
                assert forall|i: int| 0 <= i < candidates@.len() implies !close_enough(
                    input@,
                    #[trigger] candidates@[i]@,
                ) by {
                    assert(cands[i] == candidates@[i]@);
                }
            }
            None
        },
    }
}

// ---------------------------------------------------------------------------
// Diagnostics
// ---------------------------------------------------------------------------

/// How serious a diagnostic is.
#[derive(Debug, Clone, Copy, PartialEq, Eq, Structural, PartialOrd, Ord)]
pub enum Level {
    /// The value was ignored or replaced with its default; linting continues.
    Warning,
    /// The configuration is wrong in a way the user almost certainly cares
    /// about; linting should not proceed.
    Error,
}

/// One problem found in a configuration file.
#[derive(Debug, Clone)]
pub struct Diagnostic {
    /// How serious this problem is.
    pub level: Level,
    /// What is wrong, in one sentence.
    pub message: String,
    /// File the problem was found in, when it came from a file.
    pub path: Option<String>,
    /// Byte range of the offending text within that file.
    pub span: Option<Range<usize>>,
    /// `path:line:column`, pre-rendered while the source text was still
    /// available.
    pub location: Option<String>,
    /// Optional follow-up, typically a "did you mean" suggestion.
    pub help: Option<String>,
}

/// A diagnostic as plain values.
pub struct DiagnosticModel {
    pub level: Level,
    pub message: Seq<char>,
    pub path: Option<Seq<char>>,
    pub span: Option<Range<usize>>,
    pub location: Option<Seq<char>>,
    pub help: Option<Seq<char>>,
}

impl View for Diagnostic {
    type V = DiagnosticModel;

    open spec fn view(&self) -> DiagnosticModel {
        DiagnosticModel {
            level: self.level,
            message: self.message@,
            path: self.path.deep_view(),
            span: self.span,
            location: self.location.deep_view(),
            help: self.help.deep_view(),
        }
    }
}

/// The views of a sequence of diagnostics.
pub open spec fn diagnostic_views(s: Seq<Diagnostic>) -> Seq<DiagnosticModel> {
    s.map_values(|d: Diagnostic| d@)
}

/// A collected set of configuration problems, in the order they were found.
#[derive(Debug, Clone, Default)]
pub struct Diagnostics {
    entries: Vec<Diagnostic>,
}

impl View for Diagnostics {
    type V = Seq<DiagnosticModel>;

    closed spec fn view(&self) -> Seq<DiagnosticModel> {
        diagnostic_views(self.entries@)
    }
}

/// True if some diagnostic is an error rather than a warning.
pub open spec fn any_error(s: Seq<DiagnosticModel>) -> bool {
    exists|i: int| 0 <= i < s.len() && #[trigger] s[i].level == Level::Error
}

impl Diagnostics {
    /// Create an empty set.
    pub fn new() -> (res: Self)
        ensures
            res@ == Seq::<DiagnosticModel>::empty(),
    {
        let res = Diagnostics { entries: Vec::new() };
        assert(res@ =~= Seq::<DiagnosticModel>::empty());
        res
    }

    /// Add a problem.
    pub fn push(&mut self, diagnostic: Diagnostic)
        ensures
            final(self)@ == old(self)@.push(diagnostic@),
    {
        self.entries.push(diagnostic);
        assert(self@ =~= old(self)@.push(diagnostic@));
    }

    /// Every problem found, in the order they were found.
    pub fn entries(&self) -> (res: &[Diagnostic])
        ensures
            diagnostic_views(res@) == self@,
    {
        self.entries.as_slice()
    }

    /// True if no problems were found.
    pub fn is_empty(&self) -> (res: bool)
        ensures
            res == (self@.len() == 0),
    {
        self.entries.len() == 0
    }

    /// True if at least one problem is an error rather than a warning.
    pub fn has_errors(&self) -> (res: bool)
        ensures
            res == any_error(self@),
    {
        let mut i: usize = 0;
        while i < self.entries.len()
            invariant
                i <= self.entries@.len(),
                self@ == diagnostic_views(self.entries@),
                forall|j: int| 0 <= j < i ==> #[trigger] self@[j].level != Level::Error,
            decreases self.entries@.len() - i,
        {
            assert(self@[i as int] == self.entries@[i as int]@);
            if self.entries[i].level == Level::Error {
                assert(self@[i as int].level == Level::Error);
                return true;
            }
            i = i + 1;
        }
        false
    }
}

/// A fresh diagnostic at the given level, with nothing attached.
pub open spec fn plain(level: Level, message: Seq<char>) -> DiagnosticModel {
    DiagnosticModel { level, message, path: None, span: None, location: None, help: None }
}

/// `path:line:column` for byte `offset` of `text`.
pub open spec fn location_text(path: Seq<char>, text: Seq<char>, offset: usize) -> Seq<char> {
    let (line, column) = spec_line_col(text, offset);
    path + ":"@ + decimal(line) + ":"@ + decimal(column)
}

/// True if `span` is absent or starts where text can be located.
pub open spec fn span_locatable(text: Seq<char>, span: Option<Range<usize>>) -> bool {
    match span {
        Some(s) => locatable(text, s.start),
        None => true,
    }
}

/// `d` with its source location attached.
pub open spec fn placed(d: DiagnosticModel, path: Seq<char>, text: Seq<char>, span: Option<
    Range<usize>,
>) -> DiagnosticModel {
    DiagnosticModel {
        path: Some(path),
        location: match span {
            Some(s) => Some(location_text(path, text, s.start)),
            None => None,
        },
        span,
        ..d
    }
}

/// `d` with the follow-up `help` attached.
pub open spec fn helped(d: DiagnosticModel, help: Seq<char>) -> DiagnosticModel {
    DiagnosticModel { help: Some(help), ..d }
}

/// The help text that suggests `best`.
pub open spec fn did_you_mean_text(best: Seq<char>) -> Seq<char> {
    "did you mean `"@ + best + "`?"@
}

/// `d` with a "did you mean" suggestion for `input` among `cands`, if one is
/// close enough.
pub open spec fn suggested(d: DiagnosticModel, input: Seq<char>, cands: Seq<Seq<char>>) -> DiagnosticModel {
    match suggestion(input, cands) {
        Some(best) => helped(d, did_you_mean_text(best)),
        None => d,
    }
}

/// A copy of a byte range.
pub fn copy_span(span: &Option<Range<usize>>) -> (res: Option<Range<usize>>)
    ensures
        res == *span,
{
    match span {
        Some(r) => Some(Range { start: r.start, end: r.end }),
        None => None,
    }
}

/// Builder for a single diagnostic, so that call sites read as one
/// expression rather than a struct literal with four `None` fields.
#[derive(Debug)]
pub struct DiagnosticBuilder {
    diagnostic: Diagnostic,
}

impl View for DiagnosticBuilder {
    type V = DiagnosticModel;

    closed spec fn view(&self) -> DiagnosticModel {
        self.diagnostic@
    }
}

impl DiagnosticBuilder {
    /// Start building a warning.
    pub fn warning(message: String) -> (res: Self)
        ensures
            res@ == plain(Level::Warning, message@),
    {
        Self::new(Level::Warning, message)
    }

    /// Start building an error.
    pub fn error(message: String) -> (res: Self)
        ensures
            res@ == plain(Level::Error, message@),
    {
        Self::new(Level::Error, message)
    }

    /// Start building a diagnostic at the given level.
    fn new(level: Level, message: String) -> (res: Self)
        ensures
            res@ == plain(level, message@),
    {
        DiagnosticBuilder {
            diagnostic: Diagnostic {
                level,
                message,
                path: None,
                span: None,
                location: None,
                help: None,
            },
        }
    }

    /// Attach the source location, rendering line and column immediately.
    pub fn at(self, path: &str, text: &str, span: Option<Range<usize>>) -> (res: Self)
        requires
            span_locatable(text@, span),
        ensures
            res@ == placed(self@, path@, text@, span),
    {
        let mut d = self.diagnostic;
        d.path = Some(path.to_owned());
        d.location = match &span {
            Some(s) => {
                let (line, column) = line_col(text, s.start);
                let mut loc = concat2(path, ":");
                loc.append(to_decimal(line as u64).as_str());
                loc.append(":");
                loc.append(to_decimal(column as u64).as_str());
                Some(loc)
            },
            None => None,
        };
        d.span = span;
        DiagnosticBuilder { diagnostic: d }
    }

    /// Attach a follow-up suggestion.
    pub fn help(self, help: String) -> (res: Self)
        ensures
            res@ == helped(self@, help@),
    {
        let mut d = self.diagnostic;
        d.help = Some(help);
        DiagnosticBuilder { diagnostic: d }
    }

    /// Attach a "did you mean" suggestion, if a close enough candidate exists.
    pub fn suggest(self, input: &str, candidates: &[&str]) -> (res: Self)
        ensures
            res@ == suggested(self@, input@, str_views(candidates@)),
    {
        match did_you_mean(input, candidates) {
            Some(best) => self.help(concat3("did you mean `", best, "`?")),
            None => self,
        }
    }

    /// Finish and push into a diagnostic set.
    pub fn emit(self, diagnostics: &mut Diagnostics)
        ensures
            final(diagnostics)@ == old(diagnostics)@.push(self@),
    {
        diagnostics.push(self.diagnostic);
    }
}

} // verus!
