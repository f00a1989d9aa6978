//! Text processing for model output and prompt assembly.
//!
//! Model responses are handled permissively: lines are separated on
//! newlines, an enumerated-list line yields everything after its first
//! `.`, and extracted names are stripped of surrounding whitespace.

use vstd::prelude::*;

verus! {

/// The whitespace class stripped from the ends of model output.
pub open spec fn is_space(c: char) -> bool {
    c == ' ' || c == '\t' || c == '\n' || c == '\r'
}

fn is_space_char(c: char) -> (b: bool)
    ensures
        b == is_space(c),
{
    c == ' ' || c == '\t' || c == '\n' || c == '\r'
}

/// The input without leading and trailing whitespace.
pub open spec fn trim_spec(s: Seq<char>) -> Seq<char>
    decreases s.len(),
{
    if s.len() == 0 {
        s
    } else if is_space(s[0]) {
        trim_spec(s.drop_first())
    } else if is_space(s[s.len() - 1]) {
        trim_spec(s.drop_last())
    } else {
        s
    }
}

proof fn lemma_trim_range(s: Seq<char>, start: int, end: int)
    requires
        0 <= start <= end <= s.len(),
        forall|j: int| 0 <= j < start ==> is_space(s[j]),
        forall|j: int| end <= j < s.len() ==> is_space(s[j]),
        start == end || (!is_space(s[start]) && !is_space(s[end - 1])),
    ensures
        trim_spec(s) == s.subrange(start, end),
    decreases s.len(),
{
    if s.len() == 0 {
        assert(trim_spec(s) =~= s.subrange(start, end));
    } else if is_space(s[0]) {
        if start == end {
            lemma_trim_range(s.drop_first(), 0, 0);
            assert(s.subrange(start, end) =~= s.drop_first().subrange(0, 0));
        } else {
            assert(start >= 1);
            lemma_trim_range(s.drop_first(), start - 1, end - 1);
            assert(s.subrange(start, end) =~= s.drop_first().subrange(start - 1, end - 1));
        }
    } else {
        assert(start == 0);
        if is_space(s[s.len() - 1]) {
            assert(start < end);
            assert(end < s.len());
            lemma_trim_range(s.drop_last(), start, end);
            assert(s.subrange(start, end) =~= s.drop_last().subrange(start, end));
        } else {
            assert(end == s.len());
            assert(trim_spec(s) == s);
            assert(s.subrange(start, end) =~= s);
        }
    }
}

/// Trimmed text is never longer than the input.
pub proof fn lemma_trim_len(s: Seq<char>)
    ensures
        trim_spec(s).len() <= s.len(),
    decreases s.len(),
{
    if s.len() == 0 {
    } else if is_space(s[0]) {
        lemma_trim_len(s.drop_first());
    } else if is_space(s[s.len() - 1]) {
        lemma_trim_len(s.drop_last());
    }
}

/// Strip leading and trailing whitespace.
pub fn trim(s: &str) -> (r: String)
    ensures
        r@ == trim_spec(s@),
{
    let len = s.unicode_len();
    let mut start: usize = 0;
    while start < len && is_space_char(s.get_char(start))
        invariant
            0 <= start <= len,
            len == s@.len(),
            forall|j: int| 0 <= j < start ==> is_space(s@[j]),
        decreases len - start,
    {
        start = start + 1;
    }
    let mut end: usize = len;
    while end > start && is_space_char(s.get_char(end - 1))
        invariant
            start <= end <= len,
            len == s@.len(),
            forall|j: int| end <= j < len ==> is_space(s@[j]),
        decreases end,
    {
        end = end - 1;
    }
    let piece = s.substring_char(start, end);
    proof {
        lemma_trim_range(s@, start as int, end as int);
    }
    piece.to_owned()
}

/// The pieces of the input between newline separators, in order.
///
/// As with splitting on a separator character, `n` newlines yield
/// `n + 1` pieces; empty pieces are kept.
pub open spec fn split_lines_spec(s: Seq<char>) -> Seq<Seq<char>>
    decreases s.len(),
{
    if s.len() == 0 {
        seq![Seq::<char>::empty()]
    } else if s[0] == '\n' {
        seq![Seq::<char>::empty()].add(split_lines_spec(s.drop_first()))
    } else {
        let rest = split_lines_spec(s.drop_first());
        seq![seq![s[0]].add(rest[0])].add(rest.drop_first())
    }
}

/// Splitting yields at least one piece and at most one more piece than
/// the input has characters.
pub proof fn lemma_split_lines_len(s: Seq<char>)
    ensures
        1 <= split_lines_spec(s).len() <= s.len() + 1,
    decreases s.len(),
{
    if s.len() > 0 {
        lemma_split_lines_len(s.drop_first());
    }
}

proof fn lemma_split_no_newline(s: Seq<char>)
    requires
        forall|j: int| 0 <= j < s.len() ==> s[j] != '\n',
    ensures
        split_lines_spec(s) =~~= seq![s],
    decreases s.len(),
{
    if s.len() > 0 {
        lemma_split_no_newline(s.drop_first());
        let rest = split_lines_spec(s.drop_first());
        assert(rest =~~= seq![s.drop_first()]);
        assert(seq![s[0]].add(rest[0]) =~= s);
        assert(rest.drop_first() =~= Seq::<Seq<char>>::empty());
    }
}

proof fn lemma_split_first_newline(s: Seq<char>, i: int)
    requires
        0 <= i < s.len(),
        s[i] == '\n',
        forall|j: int| 0 <= j < i ==> s[j] != '\n',
    ensures
        split_lines_spec(s) =~~= seq![s.subrange(0, i)].add(
            split_lines_spec(s.subrange(i + 1, s.len() as int)),
        ),
    decreases s.len(),
{
    if i == 0 {
        assert(s.subrange(0, 0) =~= Seq::<char>::empty());
        assert(s.subrange(1, s.len() as int) =~= s.drop_first());
    } else {
        let tail = s.drop_first();
        lemma_split_first_newline(tail, i - 1);
        let rest = split_lines_spec(tail);
        let inner = split_lines_spec(tail.subrange(i, tail.len() as int));
        assert(rest =~~= seq![tail.subrange(0, i - 1)].add(inner));
        lemma_split_lines_len(tail.subrange(i, tail.len() as int));
        assert(rest[0] == tail.subrange(0, i - 1));
        assert(seq![s[0]].add(rest[0]) =~= s.subrange(0, i));
        assert(rest.drop_first() =~~= inner);
        assert(tail.subrange(i, tail.len() as int) =~= s.subrange(i + 1, s.len() as int));
    }
}

/// Split the input on newline characters, keeping empty pieces.
pub fn split_lines(s: &str) -> (r: Vec<String>)
    ensures
        r.deep_view() =~~= split_lines_spec(s@),
{
    let len = s.unicode_len();
    let mut r: Vec<String> = Vec::new();
    let mut start: usize = 0;
    let mut j: usize = 0;
    proof {
        assert(s@.subrange(0, len as int) =~= s@);
    }
    while j < len
        invariant
            0 <= start <= j <= len,
            len == s@.len(),
            forall|k: int| start <= k < j ==> s@[k] != '\n',
            split_lines_spec(s@) =~~= r.deep_view().add(
                split_lines_spec(s@.subrange(start as int, len as int)),
            ),
        decreases len - j,
    {
        if s.get_char(j) == '\n' {
            let piece = s.substring_char(start, j);
            proof {
                let tail = s@.subrange(start as int, len as int);
                lemma_split_first_newline(tail, j - start as int);
                assert(tail.subrange(0, j - start as int) =~= s@.subrange(
                    start as int,
                    j as int,
                ));
                assert(tail.subrange(j - start as int + 1, tail.len() as int) =~= s@.subrange(
                    j as int + 1,
                    len as int,
                ));
            }
            let ghost old_r = r.deep_view();
            r.push(piece.to_owned());
            proof {
                assert(r.deep_view() =~~= old_r.push(s@.subrange(start as int, j as int)));
            }
            start = j + 1;
        }
        j = j + 1;
    }
    let piece = s.substring_char(start, len);
    proof {
        lemma_split_no_newline(s@.subrange(start as int, len as int));
    }
    let ghost old_r = r.deep_view();
    r.push(piece.to_owned());
    proof {
        assert(r.deep_view() =~~= old_r.push(s@.subrange(start as int, len as int)));
    }
    r
}

/// Everything after the first `.` of the input, or nothing when the
/// input has no `.` at all.
pub open spec fn after_first_dot_spec(s: Seq<char>) -> Option<Seq<char>>
    decreases s.len(),
{
    if s.len() == 0 {
        None
    } else if s[0] == '.' {
        Some(s.drop_first())
    } else {
        after_first_dot_spec(s.drop_first())
    }
}

proof fn lemma_after_dot_none(s: Seq<char>)
    requires
        forall|j: int| 0 <= j < s.len() ==> s[j] != '.',
    ensures
        after_first_dot_spec(s) is None,
    decreases s.len(),
{
    if s.len() > 0 {
        lemma_after_dot_none(s.drop_first());
    }
}

proof fn lemma_after_dot_found(s: Seq<char>, i: int)
    requires
        0 <= i < s.len(),
        s[i] == '.',
        forall|j: int| 0 <= j < i ==> s[j] != '.',
    ensures
        after_first_dot_spec(s) == Some(s.subrange(i + 1, s.len() as int)),
    decreases s.len(),
{
    if i == 0 {
        assert(s.drop_first() =~= s.subrange(1, s.len() as int));
    } else {
        lemma_after_dot_found(s.drop_first(), i - 1);
        assert(s.drop_first().subrange(i, s.len() - 1) =~= s.subrange(i + 1, s.len() as int));
    }
}

/// Return everything after the first `.`, or `None` without one.
pub fn after_first_dot(s: &str) -> (r: Option<String>)
    ensures
        r.deep_view() == after_first_dot_spec(s@),
{
    let len = s.unicode_len();
    let mut j: usize = 0;
    while j < len
        invariant
            0 <= j <= len,
            len == s@.len(),
            forall|k: int| 0 <= k < j ==> s@[k] != '.',
        decreases len - j,
    {
        if s.get_char(j) == '.' {
            let piece = s.substring_char(j + 1, len);
            proof {
                lemma_after_dot_found(s@, j as int);
            }
            return Some(piece.to_owned());
        }
        j = j + 1;
    }
    proof {
        lemma_after_dot_none(s@);
    }
    None
}

/// A candidate task name taken from one line of model output:
/// everything after the line's first `.`, trimmed; `None` when the
/// line has no `.`.
pub open spec fn parse_name_spec(line: Seq<char>) -> Option<Seq<char>> {
    match after_first_dot_spec(line) {
        Some(r) => Some(trim_spec(r)),
        None => None,
    }
}

/// Extract the candidate task name of one enumerated-list line.
pub fn parse_name(line: &str) -> (r: Option<String>)
    ensures
        r.deep_view() == parse_name_spec(line@),
{
    match after_first_dot(line) {
        Some(rest) => Some(trim(rest.as_str())),
        None => None,
    }
}

/// The pieces joined with single newlines between them.
pub open spec fn join_lines_spec(parts: Seq<Seq<char>>) -> Seq<char>
    decreases parts.len(),
{
    if parts.len() == 0 {
        Seq::<char>::empty()
    } else if parts.len() == 1 {
        parts[0]
    } else {
        parts[0] + seq!['\n'] + join_lines_spec(parts.drop_first())
    }
}

proof fn lemma_join_lines_push(parts: Seq<Seq<char>>, x: Seq<char>)
    ensures
        parts.len() == 0 ==> join_lines_spec(parts.push(x)) == x,
        parts.len() > 0 ==> join_lines_spec(parts.push(x)) == join_lines_spec(parts) + seq!['\n']
            + x,
    decreases parts.len(),
{
    if parts.len() == 0 {
        assert(parts.push(x)[0] == x);
    } else if parts.len() == 1 {
        assert(parts.push(x)[0] == parts[0]);
        assert(parts.push(x).drop_first() =~~= seq![x]);
        assert(join_lines_spec(seq![x]) == x);
    } else {
        lemma_join_lines_push(parts.drop_first(), x);
        assert(parts.push(x)[0] == parts[0]);
        assert(parts.push(x).drop_first() =~~= parts.drop_first().push(x));
        assert(join_lines_spec(parts.push(x)) == parts[0] + seq!['\n'] + join_lines_spec(
            parts.drop_first().push(x),
        ));
        assert(parts[0] + seq!['\n'] + (join_lines_spec(parts.drop_first()) + seq!['\n'] + x)
            =~= (parts[0] + seq!['\n'] + join_lines_spec(parts.drop_first())) + seq!['\n'] + x);
    }
}

/// Join the pieces with newline separators.
pub fn join_lines(parts: &Vec<String>) -> (r: String)
    ensures
        r@ == join_lines_spec(parts.deep_view()),
{
    let mut r = String::new();
    let mut i: usize = 0;
    proof {
        reveal_strlit("\n");
        assert(parts.deep_view().subrange(0, 0) =~~= Seq::<Seq<char>>::empty());
    }
    while i < parts.len()
        invariant
            0 <= i <= parts.len(),
            parts.deep_view().len() == parts.len(),
            r@ == join_lines_spec(parts.deep_view().subrange(0, i as int)),
        decreases parts.len() - i,
    {
        if i > 0 {
            r.append("\n");
        }
        r.append(parts[i].as_str());
        proof {
            reveal_strlit("\n");
            let prefix = parts.deep_view().subrange(0, i as int);
            lemma_join_lines_push(prefix, parts.deep_view()[i as int]);
            assert(parts.deep_view().subrange(0, i + 1) =~~= prefix.push(
                parts.deep_view()[i as int],
            ));
        }
        i = i + 1;
    }
    proof {
        assert(parts.deep_view().subrange(0, parts.len() as int) =~~= parts.deep_view());
    }
    r
}

/// The input with every newline replaced by a space, so that it can be
/// sent as a single-line embedding input.
pub open spec fn single_line_spec(s: Seq<char>) -> Seq<char> {
    s.map_values(|c: char| if c == '\n' { ' ' } else { c })
}

/// Replace every newline with a space.
pub fn single_line(s: &str) -> (r: String)
    ensures
        r@ == single_line_spec(s@),
{
    let len = s.unicode_len();
    let mut r = String::new();
    let mut start: usize = 0;
    let mut j: usize = 0;
    while j < len
        invariant
            0 <= start <= j <= len,
            len == s@.len(),
            forall|k: int| start <= k < j ==> s@[k] != '\n',
            r@ =~= single_line_spec(s@.subrange(0, start as int)),
        decreases len - j,
    {
        if s.get_char(j) == '\n' {
            let piece = s.substring_char(start, j);
            r.append(piece);
            r.append(" ");
            proof {
                reveal_strlit(" ");
                assert(r@ =~= single_line_spec(s@.subrange(0, j as int + 1)));
            }
            start = j + 1;
        }
        j = j + 1;
    }
    let piece = s.substring_char(start, len);
    r.append(piece);
    proof {
        assert(r@ =~= single_line_spec(s@));
    }
    r
}

/// The decimal digit characters `0` through `9`.
pub open spec fn digit_char(d: nat) -> char {
    if d == 0 {
        '0'
    } else if d == 1 {
        '1'
    } else if d == 2 {
        '2'
    } else if d == 3 {
        '3'
    } else if d == 4 {
        '4'
    } else if d == 5 {
        '5'
    } else if d == 6 {
        '6'
    } else if d == 7 {
        '7'
    } else if d == 8 {
        '8'
    } else {
        '9'
    }
}

/// The usual decimal rendering of a natural number, without leading
/// zeros (and `0` itself as a single digit).
pub open spec fn decimal_spec(n: nat) -> Seq<char>
    decreases n,
{
    if n < 10 {
        seq![digit_char(n)]
    } else {
        decimal_spec(n / 10).push(digit_char(n % 10))
    }
}

/// Distinct numbers have distinct decimal renderings.
pub proof fn lemma_decimal_injective(a: nat, b: nat)
    requires
        decimal_spec(a) == decimal_spec(b),
    ensures
        a == b,
    decreases a,
{
    if a < 10 && b < 10 {
        assert(decimal_spec(a)[0] == digit_char(a));
        assert(decimal_spec(b)[0] == digit_char(b));
    } else if a < 10 {
        assert(decimal_spec(a).len() == 1);
        lemma_decimal_len_ge_two(b);
    } else if b < 10 {
        assert(decimal_spec(b).len() == 1);
        lemma_decimal_len_ge_two(a);
    } else {
        let pa = decimal_spec(a / 10);
        let pb = decimal_spec(b / 10);
        assert(pa.push(digit_char(a % 10)).last() == digit_char(a % 10));
        assert(pb.push(digit_char(b % 10)).last() == digit_char(b % 10));
        assert(a % 10 == b % 10);
        assert(pa.push(digit_char(a % 10)).drop_last() =~= pa);
        assert(pb.push(digit_char(b % 10)).drop_last() =~= pb);
        assert(pa == pb);
        lemma_decimal_injective(a / 10, b / 10);
    }
}

proof fn lemma_decimal_len_ge_two(n: nat)
    requires
        n >= 10,
    ensures
        decimal_spec(n).len() >= 2,
{
    assert(decimal_spec(n / 10).len() >= 1);
}

fn digit_str(d: u64) -> (r: &'static str)
    requires
        d < 10,
    ensures
        r@ == seq![digit_char(d as nat)],
{
    proof {
        reveal_strlit("0");
        reveal_strlit("1");
        reveal_strlit("2");
        reveal_strlit("3");
        reveal_strlit("4");
        reveal_strlit("5");
        reveal_strlit("6");
        reveal_strlit("7");
        reveal_strlit("8");
        reveal_strlit("9");
    }
    if d == 0 {
        "0"
    } else if d == 1 {
        "1"
    } else if d == 2 {
        "2"
    } else if d == 3 {
        "3"
    } else if d == 4 {
        "4"
    } else if d == 5 {
        "5"
    } else if d == 6 {
        "6"
    } else if d == 7 {
        "7"
    } else if d == 8 {
        "8"
    } else {
        "9"
    }
}

/// Render a number in decimal.
pub fn u64_to_string(n: u64) -> (r: String)
    ensures
        r@ == decimal_spec(n as nat),
    decreases n,
{
    let d = digit_str(n % 10);
    if n < 10 {
        d.to_owned()
    } else {
        let mut r = u64_to_string(n / 10);
        r.append(d);
        proof {
            assert(r@ =~= decimal_spec((n / 10) as nat).push(digit_char((n % 10) as nat)));
        }
        r
    }
}

} // verus!
