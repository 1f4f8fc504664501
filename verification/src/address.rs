use vstd::prelude::*;
use crate::error::GenError;

verus! {

/// The character that separates the segments of an address.
pub const SEPARATOR: char = '/';

/// The characters that are ignored around a segment.
pub open spec fn is_space(c: char) -> bool {
    c == ' ' || c == '\t' || c == '\n' || c == '\r'
}

/// The number of characters of `s` before its first separator; the length
/// of `s` if it holds none.
pub open spec fn first_separator(s: Seq<char>) -> nat
    decreases s.len(),
{
    if s.len() == 0 || s[0] == SEPARATOR {
        0
    } else {
        1 + first_separator(s.drop_first())
    }
}

/// The pieces of `s` between its separators, in order. There is always at
/// least one piece.
pub open spec fn split(s: Seq<char>) -> Seq<Seq<char>>
    decreases s.len(),
{
    let i = first_separator(s);
    if i >= s.len() {
        seq![s]
    } else {
        seq![s.take(i as int)] + split(s.skip(i as int + 1))
    }
}

/// `s` without the spaces at its start.
pub open spec fn trim_start(s: Seq<char>) -> Seq<char>
    decreases s.len(),
{
    if s.len() > 0 && is_space(s[0]) {
        trim_start(s.drop_first())
    } else {
        s
    }
}

/// `s` without the spaces at its end.
pub open spec fn trim_end(s: Seq<char>) -> Seq<char>
    decreases s.len(),
{
    if s.len() > 0 && is_space(s.last()) {
        trim_end(s.drop_last())
    } else {
        s
    }
}

/// `s` without the spaces at its start and at its end.
pub open spec fn trim(s: Seq<char>) -> Seq<char> {
    trim_end(trim_start(s))
}

/// The segments that the address string `s` names: its pieces, trimmed.
pub open spec fn segments(s: Seq<char>) -> Seq<Seq<char>> {
    Seq::new(split(s).len(), |i: int| trim(split(s)[i]))
}

/// The path that the address string `s` denotes. A string denotes a path
/// exactly when none of its segments is empty.
pub open spec fn parse_spec(s: Seq<char>) -> Option<Seq<Seq<char>>> {
    if forall|i: int| 0 <= i < segments(s).len() ==> (#[trigger] segments(s)[i]).len() > 0 {
        Some(segments(s))
    } else {
        None
    }
}

/// Every address string that denotes a path denotes one of at least one
/// segment, and none of its segments is empty.
pub proof fn lemma_parse_spec(s: Seq<char>)
    ensures
        parse_spec(s) matches Some(path) ==> path.len() > 0 && forall|i: int|
            0 <= i < path.len() ==> (#[trigger] path[i]).len() > 0,
{
}

/// The address string made of `pieces`, with a separator between each two.
pub open spec fn joined(pieces: Seq<Seq<char>>) -> Seq<char>
    decreases pieces.len(),
{
    if pieces.len() == 0 {
        Seq::empty()
    } else if pieces.len() == 1 {
        pieces[0]
    } else {
        pieces[0] + seq![SEPARATOR] + joined(pieces.drop_first())
    }
}

/// Whether `s` holds no separator.
pub open spec fn free_of_separator(s: Seq<char>) -> bool {
    forall|i: int| 0 <= i < s.len() ==> s[i] != SEPARATOR
}

/// Whether `s` holds spaces only.
pub open spec fn all_space(s: Seq<char>) -> bool {
    forall|i: int| 0 <= i < s.len() ==> is_space(s[i])
}

/// Splitting inverts joining: the pieces of a string joined from pieces
/// that hold no separator are those pieces.
pub proof fn law_split_joined(pieces: Seq<Seq<char>>)
    requires
        pieces.len() > 0,
        forall|i: int| 0 <= i < pieces.len() ==> free_of_separator(#[trigger] pieces[i]),
    ensures
        split(joined(pieces)) == pieces,
    decreases pieces.len(),
{
    let s = joined(pieces);
    let first = pieces[0];
    assert(free_of_separator(first));
    if pieces.len() == 1 {
        lemma_first_separator(s, s.len() as int);
        assert(split(s) =~= pieces);
    } else {
        let rest = pieces.drop_first();
        assert forall|i: int| 0 <= i < rest.len() implies free_of_separator(#[trigger] rest[i]) by {
            assert(rest[i] == pieces[i + 1]);
        }
        law_split_joined(rest);
        let k = first.len() as int;
        assert(s[k] == SEPARATOR);
        assert forall|j: int| 0 <= j < k implies s[j] != SEPARATOR by {
            assert(s[j] == first[j]);
        }
        lemma_first_separator(s, k);
        assert(s.take(k) =~= first);
        assert(s.skip(k + 1) =~= joined(rest));
        assert(split(s) =~= pieces);
    }
}

/// Spaces in front of a string do not show in what `trim_start` gives.
proof fn lemma_trim_start_padding(left: Seq<char>, s: Seq<char>)
    requires
        all_space(left),
    ensures
        trim_start(left + s) == trim_start(s),
    decreases left.len(),
{
    if left.len() > 0 {
        assert((left + s)[0] == left[0]);
        assert((left + s).drop_first() =~= left.drop_first() + s);
        lemma_trim_start_padding(left.drop_first(), s);
    } else {
        assert(left + s =~= s);
    }
}

/// Spaces behind a string do not show in what `trim_end` gives.
proof fn lemma_trim_end_padding(s: Seq<char>, right: Seq<char>)
    requires
        all_space(right),
    ensures
        trim_end(s + right) == trim_end(s),
    decreases right.len(),
{
    if right.len() > 0 {
        assert((s + right).last() == right.last());
        assert((s + right).drop_last() =~= s + right.drop_last());
        lemma_trim_end_padding(s, right.drop_last());
    } else {
        assert(s + right =~= s);
    }
}

/// Spaces behind a string do not show in what `trim` gives.
proof fn lemma_trim_padding_behind(s: Seq<char>, right: Seq<char>)
    requires
        all_space(right),
    ensures
        trim(s + right) == trim(s),
    decreases s.len(),
{
    if s.len() == 0 {
        assert(s + right =~= right);
        lemma_trim_start_padding(right, Seq::empty());
        assert(right + Seq::<char>::empty() =~= right);
    } else if is_space(s[0]) {
        assert((s + right)[0] == s[0]);
        assert((s + right).drop_first() =~= s.drop_first() + right);
        lemma_trim_padding_behind(s.drop_first(), right);
    } else {
        assert((s + right)[0] == s[0]);
        lemma_trim_end_padding(s, right);
    }
}

/// Trimming ignores padding: spaces put in front of a string and behind
/// it do not show in what `trim` gives.
pub proof fn law_trim_padding(left: Seq<char>, s: Seq<char>, right: Seq<char>)
    requires
        all_space(left),
        all_space(right),
    ensures
        trim(left + s + right) == trim(s),
{
    assert(left + s + right =~= left + (s + right));
    lemma_trim_start_padding(left, s + right);
    lemma_trim_padding_behind(s, right);
}

/// Spaces around segments are ignored: two address strings whose pieces
/// differ only in spaces in front of them and behind them denote the same
/// path, or both denote none.
pub proof fn law_spaces_ignored(
    pieces: Seq<Seq<char>>,
    lefts: Seq<Seq<char>>,
    rights: Seq<Seq<char>>,
)
    requires
        pieces.len() > 0,
        lefts.len() == pieces.len(),
        rights.len() == pieces.len(),
        forall|i: int| 0 <= i < pieces.len() ==> free_of_separator(#[trigger] pieces[i]),
        forall|i: int| 0 <= i < pieces.len() ==> all_space(#[trigger] lefts[i]),
        forall|i: int| 0 <= i < pieces.len() ==> all_space(#[trigger] rights[i]),
    ensures
        parse_spec(
            joined(Seq::new(pieces.len(), |i: int| lefts[i] + pieces[i] + rights[i])),
        ) == parse_spec(joined(pieces)),
{
    let padded = Seq::new(pieces.len(), |i: int| lefts[i] + pieces[i] + rights[i]);
    assert forall|i: int| 0 <= i < padded.len() implies free_of_separator(
        #[trigger] padded[i],
    ) by {
        assert(free_of_separator(pieces[i]));
        assert(all_space(lefts[i]));
        assert(all_space(rights[i]));
        let whole = padded[i];
        assert forall|j: int| 0 <= j < whole.len() implies whole[j] != SEPARATOR by {
            if j < lefts[i].len() {
                assert(whole[j] == lefts[i][j]);
            } else if j < lefts[i].len() + pieces[i].len() {
                assert(whole[j] == pieces[i][j - lefts[i].len()]);
            } else {
                assert(whole[j] == rights[i][j - lefts[i].len() - pieces[i].len()]);
            }
        }
    }
    law_split_joined(padded);
    law_split_joined(pieces);
    assert forall|i: int| 0 <= i < pieces.len() implies trim(#[trigger] padded[i]) == trim(
        pieces[i],
    ) by {
        assert(all_space(lefts[i]));
        assert(all_space(rights[i]));
        law_trim_padding(lefts[i], pieces[i], rights[i]);
    }
    assert(segments(joined(padded)) =~= segments(joined(pieces)));
}

/// A parsed address: a path of one or more non-empty segments.
#[derive(Debug, PartialEq, Eq)]
pub struct Address {
    segments: Vec<Vec<char>>,
}

impl View for Address {
    type V = Seq<Seq<char>>;

    closed spec fn view(&self) -> Seq<Seq<char>> {
        Seq::new(self.segments.len() as nat, |i: int| self.segments[i]@)
    }
}

/// If `k` is the first position of `s` that holds a separator, or the
/// length of `s` where no position does, then `first_separator(s)` is `k`.
proof fn lemma_first_separator(s: Seq<char>, k: int)
    requires
        0 <= k <= s.len(),
        forall|j: int| 0 <= j < k ==> s[j] != SEPARATOR,
        k == s.len() || s[k] == SEPARATOR,
    ensures
        first_separator(s) == k,
    decreases k,
{
    if k > 0 {
        lemma_first_separator(s.drop_first(), k - 1);
    }
}

/// Skipping the first `a` characters of `s`, all of them spaces, up to a
/// character that is none, is what `trim_start` does.
proof fn lemma_trim_start(s: Seq<char>, a: int)
    requires
        0 <= a <= s.len(),
        forall|j: int| 0 <= j < a ==> is_space(s[j]),
        a == s.len() || !is_space(s[a]),
    ensures
        trim_start(s) == s.skip(a),
    decreases a,
{
    if a > 0 {
        lemma_trim_start(s.drop_first(), a - 1);
        assert(s.drop_first().skip(a - 1) == s.skip(a));
    } else {
        assert(s.skip(0) == s);
    }
}

/// Keeping the first `b` characters of `s`, where all that follow are
/// spaces and the last one kept is none, is what `trim_end` does.
proof fn lemma_trim_end(s: Seq<char>, b: int)
    requires
        0 <= b <= s.len(),
        forall|j: int| b <= j < s.len() ==> is_space(s[j]),
        b == 0 || !is_space(s[b - 1]),
    ensures
        trim_end(s) == s.take(b),
    decreases s.len() - b,
{
    if b < s.len() {
        lemma_trim_end(s.drop_last(), b);
        assert(s.drop_last().take(b) == s.take(b));
    } else {
        assert(s.take(b) == s);
    }
}

fn is_space_char(c: char) -> (r: bool)
    ensures
        r == is_space(c),
{
    c == ' ' || c == '\t' || c == '\n' || c == '\r'
}

/// The characters of `s`, in order.
fn chars_of(s: &str) -> (v: Vec<char>)
    ensures
        v@ == s@,
{
    broadcast use vstd::string::group_string_axioms;

    let mut v: Vec<char> = Vec::new();
    for c in iter: s.chars()
        invariant
            iter.seq() == s@,
            v@ == iter.seq().take(iter.index()),
    {
        v.push(c);
    }
    v
}

/// A copy of the characters of `chars` from position `from` up to `to`.
fn copy_range(chars: &Vec<char>, from: usize, to: usize) -> (v: Vec<char>)
    requires
        from <= to <= chars.len(),
    ensures
        v@ == chars@.subrange(from as int, to as int),
{
    let mut v: Vec<char> = Vec::new();
    let mut i: usize = from;
    while i < to
        invariant
            from <= i <= to <= chars.len(),
            v@ == chars@.subrange(from as int, i as int),
        decreases to - i,
    {
        v.push(chars[i]);
        i += 1;
    }
    v
}

impl Address {
    /// Parses an address string: segments separated by `/`, with spaces
    /// around each segment ignored. A string with an empty segment is
    /// rejected.
    pub fn parse(addr: &str) -> (r: Result<Address, GenError>)
        ensures
            match parse_spec(addr@) {
                Some(path) => r matches Ok(a) && a@ == path,
                None => r == Err::<Address, GenError>(GenError::BadAddress),
            },
    {
        let chars = chars_of(addr);
        let n = chars.len();
        let mut parsed: Vec<Vec<char>> = Vec::new();
        let mut start: usize = 0;
        let ghost mut pieces: Seq<Seq<char>> = Seq::empty();
        proof {
            assert(addr@.skip(0) == addr@);
            assert(pieces + split(addr@) == split(addr@));
        }
        loop
            invariant_except_break
                split(addr@) == pieces + split(addr@.skip(start as int)),
            invariant
                chars@ == addr@,
                n == chars.len(),
                start <= n,
                parsed.len() == pieces.len(),
                forall|i: int|
                    0 <= i < pieces.len() ==> (#[trigger] parsed[i])@ == trim(pieces[i])
                        && parsed[i]@.len() > 0,
            ensures
                split(addr@) == pieces,
            decreases n - start,
        {
            let ghost rest = addr@.skip(start as int);
            let mut end: usize = start;
            while end < n && chars[end] != SEPARATOR
                invariant
                    chars@ == addr@,
                    n == chars.len(),
                    start <= end <= n,
                    forall|j: int| start <= j < end ==> chars[j] != SEPARATOR,
                decreases n - end,
            {
                end += 1;
            }
            let ghost piece = addr@.subrange(start as int, end as int);
            proof {
                lemma_first_separator(rest, end - start);
                assert(rest.take(end - start) == piece);
                if end == n {
                    assert(piece == rest);
                }
            }
            let mut a: usize = start;
            while a < end && is_space_char(chars[a])
                invariant
                    start <= a <= end <= n,
                    n == chars.len(),
                    forall|j: int| start <= j < a ==> is_space(chars[j]),
                decreases end - a,
            {
                a += 1;
            }
            let mut b: usize = end;
            while b > a && is_space_char(chars[b - 1])
                invariant
                    a <= b <= end <= n,
                    n == chars.len(),
                    forall|j: int| b <= j < end ==> is_space(chars[j]),
                decreases b,
            {
                b -= 1;
            }
            proof {
                lemma_trim_start(piece, a - start);
                lemma_trim_end(piece.skip(a - start), b - a);
                assert(piece.skip(a - start).take(b - a) == addr@.subrange(a as int, b as int));
                assert(trim(piece) == addr@.subrange(a as int, b as int));
                assert(split(addr@)[pieces.len() as int] == piece);
            }
            if a == b {
                proof {
                    let i = pieces.len() as int;
                    assert(segments(addr@)[i].len() == 0);
                }
                return Err(GenError::BadAddress);
            }
            let segment = copy_range(&chars, a, b);
            parsed.push(segment);
            proof {
                pieces = pieces.push(piece);
            }
            if end == n {
                proof {
                    assert(split(addr@) == pieces);
                }
                break;
            }
            proof {
                assert(rest.skip(end - start + 1) == addr@.skip(end + 1));
                assert(split(addr@) == pieces + split(addr@.skip(end + 1)));
            }
            start = end + 1;
        }
        let address = Address { segments: parsed };
        proof {
            assert(address@ =~= segments(addr@));
        }
        Ok(address)
    }

    /// The number of segments.
    pub fn len(&self) -> (n: usize)
        ensures
            n == self@.len(),
    {
        self.segments.len()
    }

    /// The segment at position `i`.
    pub fn segment(&self, i: usize) -> (s: &Vec<char>)
        requires
            i < self@.len(),
        ensures
            s@ == self@[i as int],
    {
        &self.segments[i]
    }
}

} // verus!
