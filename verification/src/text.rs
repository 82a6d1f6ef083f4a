use vstd::prelude::*;
use vstd::string::*;

verus! {

/// The characters of `s`, in order.
pub fn chars_of(s: &str) -> (chars: Vec<char>)
    ensures
        chars@ == s@,
{
    let mut chars: Vec<char> = Vec::new();
    for c in it: s.chars()
        invariant
            it.seq() == s@,
            chars@ == it.seq().take(it.index() as int),
    {
        chars.push(c);
    }
    chars
}

/// Whether `c` is white space: one of the characters that Unicode marks as
/// `White_Space`.
pub open spec fn is_space(c: char) -> bool {
    ||| '\u{9}' <= c <= '\u{d}'
    ||| c == ' '
    ||| c == '\u{85}'
    ||| c == '\u{a0}'
    ||| c == '\u{1680}'
    ||| '\u{2000}' <= c <= '\u{200a}'
    ||| c == '\u{2028}'
    ||| c == '\u{2029}'
    ||| c == '\u{202f}'
    ||| c == '\u{205f}'
    ||| c == '\u{3000}'
}

/// Tells whether `c` is white space.
pub fn is_space_char(c: char) -> (space: bool)
    ensures
        space == is_space(c),
{
    ('\u{9}' <= c && c <= '\u{d}') || c == ' ' || c == '\u{85}' || c == '\u{a0}' || c
        == '\u{1680}' || ('\u{2000}' <= c && c <= '\u{200a}') || c == '\u{2028}' || c
        == '\u{2029}' || c == '\u{202f}' || c == '\u{205f}' || c == '\u{3000}'
}

/// `s` without the white space at its start.
pub open spec fn trim_start(s: Seq<char>) -> Seq<char>
    decreases s.len(),
{
    if s.len() > 0 && is_space(s[0]) {
        trim_start(s.drop_first())
    } else {
        s
    }
}

/// `s` without the white space at its end.
pub open spec fn trim_end(s: Seq<char>) -> Seq<char>
    decreases s.len(),
{
    if s.len() > 0 && is_space(s.last()) {
        trim_end(s.drop_last())
    } else {
        s
    }
}

/// `s` without the white space at its start and at its end.
pub open spec fn trim(s: Seq<char>) -> Seq<char> {
    trim_end(trim_start(s))
}

/// The bounds of the part of `chars[from..to]` that trimming leaves.
pub fn trim_bounds(chars: &Vec<char>, from: usize, to: usize) -> (bounds: (usize, usize))
    requires
        from <= to <= chars@.len(),
    ensures
        from <= bounds.0 <= bounds.1 <= to,
        chars@.subrange(bounds.0 as int, bounds.1 as int) == trim(
            chars@.subrange(from as int, to as int),
        ),
{
    let mut start: usize = from;
    while start < to && is_space_char(chars[start])
        invariant
            from <= start <= to <= chars@.len(),
            trim_start(chars@.subrange(from as int, to as int)) == trim_start(
                chars@.subrange(start as int, to as int),
            ),
        decreases to - start,
    {
        proof {
            assert(chars@.subrange(start as int, to as int).drop_first() =~= chars@.subrange(
                start + 1,
                to as int,
            ));
        }
        start += 1;
    }
    let mut end: usize = to;
    while end > start && is_space_char(chars[end - 1])
        invariant
            start <= end <= to <= chars@.len(),
            trim_end(chars@.subrange(start as int, to as int)) == trim_end(
                chars@.subrange(start as int, end as int),
            ),
        decreases end - start,
    {
        proof {
            assert(chars@.subrange(start as int, end as int).drop_last() =~= chars@.subrange(
                start as int,
                end - 1,
            ));
        }
        end -= 1;
    }
    (start, end)
}

/// The position of the first comma of `s`, or the length of `s` where it has
/// none.
pub open spec fn first_comma(s: Seq<char>) -> int
    decreases s.len(),
{
    if s.len() == 0 || s[0] == ',' {
        0
    } else {
        1 + first_comma(s.drop_first())
    }
}

/// The pieces into which the commas of `s` cut it: one more than it has
/// commas, each without a comma, some of them possibly empty.
pub open spec fn split_commas(s: Seq<char>) -> Seq<Seq<char>>
    decreases s.len(),
{
    let k = first_comma(s);
    if 0 <= k < s.len() {
        seq![s.take(k)] + split_commas(s.skip(k + 1))
    } else {
        seq![s]
    }
}

/// The names that a comma-separated list holds: its pieces, each trimmed.
pub open spec fn listed_names(s: Seq<char>) -> Seq<Seq<char>> {
    split_commas(s).map_values(|piece: Seq<char>| trim(piece))
}

/// Where no character before position `k` is a comma, and `k` is the end of
/// `s` or the place of a comma, `k` is the first comma of `s`.
pub proof fn lemma_first_comma(s: Seq<char>, k: int)
    requires
        0 <= k <= s.len(),
        forall|j: int| 0 <= j < k ==> s[j] != ',',
        k < s.len() ==> s[k] == ',',
    ensures
        first_comma(s) == k,
    decreases s.len(),
{
    if k > 0 {
        lemma_first_comma(s.drop_first(), k - 1);
    }
}

/// The number of commas in `s`.
pub open spec fn comma_count(s: Seq<char>) -> nat
    decreases s.len(),
{
    if s.len() == 0 {
        0
    } else {
        comma_count(s.drop_first()) + if s[0] == ',' {
            1nat
        } else {
            0nat
        }
    }
}

/// The first comma of `s` lies within `s` or at its end, and no earlier
/// character is a comma.
pub proof fn lemma_first_comma_bounds(s: Seq<char>)
    ensures
        0 <= first_comma(s) <= s.len(),
        forall|j: int| 0 <= j < first_comma(s) ==> s[j] != ',',
        first_comma(s) < s.len() ==> s[first_comma(s)] == ',',
        comma_count(s.take(first_comma(s))) == 0,
    decreases s.len(),
{
    if s.len() == 0 || s[0] == ',' {
        assert(s.take(0).len() == 0);
    } else {
        let rest = s.drop_first();
        lemma_first_comma_bounds(rest);
        let k = first_comma(rest);
        assert(s.take(k + 1).drop_first() =~= rest.take(k));
        assert forall|j: int| 0 <= j < k + 1 implies s[j] != ',' by {
            if j > 0 {
                assert(rest[j - 1] == s[j]);
            }
        }
    }
}

/// A list with `n` commas names `n + 1` columns, and no piece holds a comma.
pub proof fn lemma_split_commas_len(s: Seq<char>)
    ensures
        split_commas(s).len() == comma_count(s) + 1,
        listed_names(s).len() == comma_count(s) + 1,
        forall|i: int|
            0 <= i < split_commas(s).len() ==> comma_count(#[trigger] split_commas(s)[i]) == 0,
    decreases s.len(),
{
    lemma_first_comma_bounds(s);
    let k = first_comma(s);
    lemma_comma_count_skip(s, k);
    if k < s.len() {
        lemma_split_commas_len(s.skip(k + 1));
        lemma_comma_count_skip(s, k + 1);
        assert(s.skip(k).drop_first() =~= s.skip(k + 1));
        assert(s.skip(k)[0] == ',');
        let tail = split_commas(s.skip(k + 1));
        assert forall|i: int| 0 <= i < split_commas(s).len() implies comma_count(
            #[trigger] split_commas(s)[i],
        ) == 0 by {
            if i > 0 {
                assert(split_commas(s)[i] == tail[i - 1]);
            }
        }
    } else {
        assert(s.take(k) =~= s);
    }
}

/// The commas of `s` are those before position `k` and those from it on.
pub proof fn lemma_comma_count_skip(s: Seq<char>, k: int)
    requires
        0 <= k <= s.len(),
    ensures
        comma_count(s) == comma_count(s.take(k)) + comma_count(s.skip(k)),
    decreases k,
{
    if k == 0 {
        assert(s.skip(0) =~= s);
        assert(s.take(0).len() == 0);
    } else {
        lemma_comma_count_skip(s.drop_first(), k - 1);
        assert(s.take(k).drop_first() =~= s.drop_first().take(k - 1));
        assert(s.drop_first().skip(k - 1) =~= s.skip(k));
    }
}

/// The names that the comma-separated list `list` holds, in the order and
/// number in which it gives them: nothing is removed, not even a name that
/// occurs twice or is empty.
pub fn split_list(list: &str) -> (names: Vec<String>)
    ensures
        names.deep_view() == listed_names(list@),
{
    let chars = chars_of(list);
    let mut names: Vec<String> = Vec::new();
    let mut start: usize = 0;
    let mut i: usize = 0;
    let ghost mut done: Seq<Seq<char>> = Seq::empty();
    proof {
        assert(list@.skip(0) =~= list@);
    }
    while i < chars.len()
        invariant
            chars@ == list@,
            start <= i <= chars@.len(),
            forall|j: int| start <= j < i ==> chars@[j] != ',',
            split_commas(list@) == done + split_commas(list@.skip(start as int)),
            names@.len() == done.len(),
            forall|j: int| 0 <= j < done.len() ==> names@[j]@ == trim(done[j]),
        decreases chars@.len() - i,
    {
        if chars[i] == ',' {
            let bounds = trim_bounds(&chars, start, i);
            let piece = list.substring_char(bounds.0, bounds.1);
            names.push(String::from_str(piece));
            proof {
                let rest = list@.skip(start as int);
                lemma_first_comma(rest, i - start);
                assert(rest.take(i - start) =~= list@.subrange(start as int, i as int));
                assert(rest.skip(i - start + 1) =~= list@.skip(i + 1));
                let piece_seq = list@.subrange(start as int, i as int);
                assert(split_commas(rest) == seq![piece_seq] + split_commas(list@.skip(i + 1)));
                assert(done + (seq![piece_seq] + split_commas(list@.skip(i + 1))) =~= done.push(
                    piece_seq,
                ) + split_commas(list@.skip(i + 1)));
                done = done.push(piece_seq);
            }
            start = i + 1;
        }
        i += 1;
    }
    let bounds = trim_bounds(&chars, start, i);
    let piece = list.substring_char(bounds.0, bounds.1);
    names.push(String::from_str(piece));
    proof {
        let rest = list@.skip(start as int);
        lemma_first_comma(rest, rest.len() as int);
        assert(rest =~= list@.subrange(start as int, i as int));
        assert(done + seq![rest] =~= done.push(rest));
        done = done.push(rest);
        assert(names.deep_view() =~= listed_names(list@));
    }
    names
}

/// Whether the three characters ` {}` stand in `s` at position `i`.
pub open spec fn marker_at(s: Seq<char>, i: int) -> bool {
    &&& 0 <= i
    &&& i + 3 <= s.len()
    &&& s[i] == ' '
    &&& s[i + 1] == '{'
    &&& s[i + 2] == '}'
}

/// `s` without its occurrences of ` {}`, found from left to right, each
/// search starting behind the occurrence before it.
pub open spec fn without_marker(s: Seq<char>) -> Seq<char>
    decreases s.len(),
{
    if s.len() == 0 {
        s
    } else if marker_at(s, 0) {
        without_marker(s.skip(3))
    } else {
        seq![s[0]] + without_marker(s.skip(1))
    }
}

/// Text in which ` {}` does not occur stays as it is.
pub proof fn lemma_without_marker_unchanged(s: Seq<char>)
    requires
        forall|i: int| !marker_at(s, i),
    ensures
        without_marker(s) == s,
    decreases s.len(),
{
    if s.len() > 0 {
        assert(!marker_at(s, 0));
        let rest = s.skip(1);
        assert forall|i: int| !marker_at(rest, i) by {
            assert(!marker_at(s, i + 1));
        }
        lemma_without_marker_unchanged(rest);
        assert(seq![s[0]] + rest =~= s);
    }
}

/// Whether the character at position `i` of `s` belongs to an occurrence of
/// ` {}`.
pub open spec fn in_marker(s: Seq<char>, i: int) -> bool {
    marker_at(s, i) || marker_at(s, i - 1) || marker_at(s, i - 2)
}

/// The characters of `s` from position `from` on that belong to no
/// occurrence of ` {}`.
pub open spec fn outside_markers(s: Seq<char>, from: int) -> Seq<char>
    decreases s.len() - from,
{
    if from < 0 || from >= s.len() {
        Seq::empty()
    } else if in_marker(s, from) {
        outside_markers(s, from + 1)
    } else {
        seq![s[from]] + outside_markers(s, from + 1)
    }
}

proof fn lemma_without_marker_from(s: Seq<char>, from: int)
    requires
        0 <= from <= s.len(),
        !marker_at(s, from - 1),
        !marker_at(s, from - 2),
    ensures
        without_marker(s.skip(from)) == outside_markers(s, from),
    decreases s.len() - from,
{
    let rest = s.skip(from);
    if from < s.len() {
        if marker_at(s, from) {
            assert(marker_at(rest, 0));
            assert(rest.skip(3) =~= s.skip(from + 3));
            assert(in_marker(s, from));
            assert(in_marker(s, from + 1));
            assert(in_marker(s, from + 2));
            assert(outside_markers(s, from) == outside_markers(s, from + 3)) by {
                reveal_with_fuel(outside_markers, 4);
            }
            lemma_without_marker_from(s, from + 3);
        } else {
            assert(!marker_at(rest, 0));
            assert(rest.skip(1) =~= s.skip(from + 1));
            assert(!in_marker(s, from));
            lemma_without_marker_from(s, from + 1);
        }
    }
}

/// What is left of a text is what belongs to no occurrence of ` {}` in it:
/// every occurrence goes, and nothing else does.
pub proof fn lemma_without_marker_removes_occurrences(s: Seq<char>)
    ensures
        without_marker(s) == outside_markers(s, 0),
{
    assert(s.skip(0) =~= s);
    lemma_without_marker_from(s, 0);
}

/// `text` without its occurrences of ` {}`.
pub fn strip_marker(text: &str) -> (stripped: String)
    ensures
        stripped@ == without_marker(text@),
{
    let chars = chars_of(text);
    let n = chars.len();
    let mut stripped = String::new();
    let mut run: usize = 0;
    let mut i: usize = 0;
    proof {
        assert(text@.skip(0) =~= text@);
        assert(stripped@ + text@.subrange(0, 0) =~= Seq::<char>::empty());
        assert(Seq::<char>::empty() + without_marker(text@) =~= without_marker(text@));
    }
    while i < n
        invariant
            chars@ == text@,
            n == chars@.len(),
            run <= i <= n,
            without_marker(text@) == stripped@ + text@.subrange(run as int, i as int)
                + without_marker(text@.skip(i as int)),
        decreases n - i,
    {
        let ghost rest = text@.skip(i as int);
        if n - i >= 3 && chars[i] == ' ' && chars[i + 1] == '{' && chars[i + 2] == '}' {
            stripped.append(text.substring_char(run, i));
            proof {
                assert(marker_at(rest, 0));
                assert(rest.skip(3) =~= text@.skip(i + 3));
                assert(text@.subrange(i + 3, i + 3) =~= Seq::<char>::empty());
                assert(stripped@ + text@.subrange(i + 3, i + 3) =~= stripped@);
            }
            i += 3;
            run = i;
        } else {
            proof {
                assert(!marker_at(rest, 0));
                assert(rest.skip(1) =~= text@.skip(i + 1));
                assert(text@.subrange(run as int, i as int) + seq![rest[0]] =~= text@.subrange(
                    run as int,
                    i + 1,
                ));
                assert(stripped@ + text@.subrange(run as int, i as int) + (seq![rest[0]]
                    + without_marker(rest.skip(1))) =~= stripped@ + (text@.subrange(
                    run as int,
                    i as int,
                ) + seq![rest[0]]) + without_marker(rest.skip(1)));
            }
            i += 1;
        }
    }
    stripped.append(text.substring_char(run, n));
    proof {
        assert(text@.skip(n as int).len() == 0);
    }
    stripped
}

/// The number of characters that `x` and `y` have in common at their start.
pub open spec fn common_prefix(x: Seq<char>, y: Seq<char>) -> int
    decreases x.len(),
{
    if x.len() > 0 && y.len() > 0 && x[0] == y[0] {
        1 + common_prefix(x.drop_first(), y.drop_first())
    } else {
        0
    }
}

/// What `common_prefix` is: `x` and `y` agree before that position, and at
/// it one of them ends or they differ.
pub proof fn lemma_common_prefix(x: Seq<char>, y: Seq<char>)
    ensures
        0 <= common_prefix(x, y) <= x.len(),
        common_prefix(x, y) <= y.len(),
        forall|j: int| 0 <= j < common_prefix(x, y) ==> x[j] == y[j],
        common_prefix(x, y) < x.len() && common_prefix(x, y) < y.len() ==> x[common_prefix(x, y)]
            != y[common_prefix(x, y)],
    decreases x.len(),
{
    if x.len() > 0 && y.len() > 0 && x[0] == y[0] {
        let xs = x.drop_first();
        let ys = y.drop_first();
        lemma_common_prefix(xs, ys);
        let k = common_prefix(xs, ys);
        assert forall|j: int| 0 <= j < k + 1 implies x[j] == y[j] by {
            if j > 0 {
                assert(xs[j - 1] == x[j]);
                assert(ys[j - 1] == y[j]);
            }
        }
        if k < xs.len() && k < ys.len() {
            assert(xs[k] == x[k + 1]);
            assert(ys[k] == y[k + 1]);
        }
    }
}

/// A position before which `x` and `y` agree, and at which one of them ends
/// or they differ, is their common prefix.
pub proof fn lemma_common_prefix_is(x: Seq<char>, y: Seq<char>, k: int)
    requires
        0 <= k <= x.len(),
        k <= y.len(),
        forall|j: int| 0 <= j < k ==> x[j] == y[j],
        k < x.len() && k < y.len() ==> x[k] != y[k],
    ensures
        common_prefix(x, y) == k,
    decreases x.len(),
{
    if k > 0 {
        let xs = x.drop_first();
        let ys = y.drop_first();
        assert(x[0] == y[0]);
        assert forall|j: int| 0 <= j < k - 1 implies xs[j] == ys[j] by {
            assert(x[j + 1] == y[j + 1]);
        }
        lemma_common_prefix_is(xs, ys, k - 1);
    }
}

/// A text has all its characters in common with itself.
pub proof fn lemma_common_prefix_same(x: Seq<char>)
    ensures
        common_prefix(x, x) == x.len(),
{
    lemma_common_prefix_is(x, x, x.len() as int);
}

/// The number of characters that `x` and `y` have in common at their start.
pub fn common_prefix_len(x: &Vec<char>, y: &Vec<char>) -> (k: usize)
    ensures
        k == common_prefix(x@, y@),
        k <= x@.len(),
        k <= y@.len(),
{
    let mut k: usize = 0;
    while k < x.len() && k < y.len() && x[k] == y[k]
        invariant
            k <= x@.len(),
            k <= y@.len(),
            forall|j: int| 0 <= j < k ==> x@[j] == y@[j],
        decreases x@.len() - k,
    {
        k += 1;
    }
    proof {
        lemma_common_prefix_is(x@, y@, k as int);
    }
    k
}

/// The character that writes the digit `d`.
pub open spec fn digit_char(d: int) -> char {
    if d == 0 {
        '0'
    } else if d == 1 {
        '1'
    } else if d == 2 {
        '2'
    } else if d == 3 {
        '3'
    } else if d == 4 {
        '4'
    } else if d == 5 {
        '5'
    } else if d == 6 {
        '6'
    } else if d == 7 {
        '7'
    } else if d == 8 {
        '8'
    } else {
        '9'
    }
}

/// The decimal digits of `n`, the most significant first, with no leading
/// zero but for zero itself.
pub open spec fn digits(n: nat) -> Seq<char>
    decreases n,
{
    if n < 10 {
        seq![digit_char(n as int)]
    } else {
        digits(n / 10).push(digit_char((n % 10) as int))
    }
}

/// The decimal form of `n`: its digits, behind a minus sign where it is
/// negative.
pub open spec fn decimal(n: int) -> Seq<char> {
    if n < 0 {
        seq!['-'] + digits((-n) as nat)
    } else {
        digits(n as nat)
    }
}

fn digit_text(d: u64) -> (text: &'static str)
    requires
        d < 10,
    ensures
        text@ == seq![digit_char(d as int)],
{
    proof {
        reveal_strlit("0");
        reveal_strlit("1");
        reveal_strlit("2");
        reveal_strlit("3");
        reveal_strlit("4");
        reveal_strlit("5");
        reveal_strlit("6");
        reveal_strlit("7");
        reveal_strlit("8");
        reveal_strlit("9");
    }
    let text = if d == 0 {
        "0"
    } else if d == 1 {
        "1"
    } else if d == 2 {
        "2"
    } else if d == 3 {
        "3"
    } else if d == 4 {
        "4"
    } else if d == 5 {
        "5"
    } else if d == 6 {
        "6"
    } else if d == 7 {
        "7"
    } else if d == 8 {
        "8"
    } else {
        "9"
    };
    assert(text@ =~= seq![digit_char(d as int)]);
    text
}

fn append_digits(n: u64, out: &mut String)
    ensures
        final(out)@ == old(out)@ + digits(n as nat),
    decreases n,
{
    if n >= 10 {
        append_digits(n / 10, out);
    }
    out.append(digit_text(n % 10));
    proof {
        if n >= 10 {
            assert(old(out)@ + digits((n / 10) as nat) + seq![digit_char((n % 10) as int)]
                =~= old(out)@ + digits(n as nat));
        }
    }
}

/// The decimal form of `n`.
pub fn unsigned_text(n: u64) -> (text: String)
    ensures
        text@ == decimal(n as int),
{
    let mut text = String::new();
    append_digits(n, &mut text);
    assert(Seq::<char>::empty() + digits(n as nat) =~= digits(n as nat));
    text
}

/// The decimal form of `n`.
pub fn signed_text(n: i64) -> (text: String)
    ensures
        text@ == decimal(n as int),
{
    if n >= 0 {
        unsigned_text(n as u64)
    } else {
        let magnitude: u64 = (-(n + 1)) as u64 + 1;
        let mut text = String::from_str("-");
        proof {
            reveal_strlit("-");
            assert("-"@ =~= seq!['-']);
        }
        append_digits(magnitude, &mut text);
        text
    }
}

} // verus!
