//! Text handling: white-space trimming as `str::trim` does it, and the
//! extraction of the spot price from the report of the quote fetcher.

use vstd::prelude::*;

verus! {

/// The Unicode `White_Space` characters, the ones that `char::is_whitespace`
/// accepts.
pub open spec fn is_white_space(c: char) -> bool {
    let u = c as u32;
    ||| 0x09 <= u <= 0x0D
    ||| u == 0x20
    ||| u == 0x85
    ||| u == 0xA0
    ||| u == 0x1680
    ||| 0x2000 <= u <= 0x200A
    ||| u == 0x2028
    ||| u == 0x2029
    ||| u == 0x202F
    ||| u == 0x205F
    ||| u == 0x3000
}

/// `s` without its leading white space.
pub open spec fn trim_front(s: Seq<char>) -> Seq<char>
    decreases s.len(),
{
    if s.len() > 0 && is_white_space(s[0]) {
        trim_front(s.drop_first())
    } else {
        s
    }
}

/// `s` without its trailing white space.
pub open spec fn trim_back(s: Seq<char>) -> Seq<char>
    decreases s.len(),
{
    if s.len() > 0 && is_white_space(s.last()) {
        trim_back(s.drop_last())
    } else {
        s
    }
}

/// `s` without its leading and trailing white space.
pub open spec fn trimmed(s: Seq<char>) -> Seq<char> {
    trim_back(trim_front(s))
}

proof fn lemma_trim_front_clean(s: Seq<char>)
    ensures
        trim_front(s).len() > 0 ==> !is_white_space(trim_front(s)[0]),
    decreases s.len(),
{
    if s.len() > 0 && is_white_space(s[0]) {
        lemma_trim_front_clean(s.drop_first());
    }
}

proof fn lemma_trim_back_prefix(s: Seq<char>)
    ensures
        trim_back(s).len() <= s.len(),
        trim_back(s) == s.subrange(0, trim_back(s).len() as int),
        trim_back(s).len() > 0 ==> !is_white_space(trim_back(s).last()),
    decreases s.len(),
{
    if s.len() > 0 && is_white_space(s.last()) {
        lemma_trim_back_prefix(s.drop_last());
        assert(s.drop_last().subrange(0, trim_back(s).len() as int) =~= s.subrange(
            0,
            trim_back(s).len() as int,
        ));
    } else {
        assert(s.subrange(0, s.len() as int) =~= s);
    }
}

/// Trimming leaves no white space at either end, so trimming again changes
/// nothing.
pub proof fn trimmed_is_clean(s: Seq<char>)
    ensures
        trimmed(s).len() > 0 ==> !is_white_space(trimmed(s)[0]) && !is_white_space(
            trimmed(s).last(),
        ),
        trimmed(trimmed(s)) == trimmed(s),
{
    let f = trim_front(s);
    let r = trimmed(s);
    lemma_trim_front_clean(s);
    lemma_trim_back_prefix(f);
    if r.len() > 0 {
        assert(r[0] == f[0]);
    }
    assert(trim_front(r) == r);
    lemma_trim_back_prefix(r);
    assert(trim_back(r) == r);
}

/// Among ASCII characters, white space is exactly tab, line feed, vertical
/// tab, form feed, carriage return and space: no printable character (digit,
/// letter, `.`, `-`, `+`, ...) is white space.
pub proof fn ascii_white_space(c: char)
    ensures
        (c as u32) < 0x80 ==> (is_white_space(c) <==> (0x09 <= c as u32 <= 0x0D || c as u32 == 0x20)),
        0x21 <= c as u32 <= 0x7E ==> !is_white_space(c),
{
}

/// A text made only of printable ASCII characters other than space (such as
/// a number written with digits, `.`, `-`, `e`) is left as it is by trimming.
pub proof fn printable_text_is_kept(s: Seq<char>)
    requires
        forall|i: int| 0 <= i < s.len() ==> 0x21 <= #[trigger] s[i] as u32 <= 0x7E,
    ensures
        trimmed(s) == s,
{
    if s.len() > 0 {
        ascii_white_space(s[0]);
        ascii_white_space(s.last());
    }
    assert(trim_front(s) == s);
    assert(trim_back(s) == s);
}

/// Whether `c` is white space.
pub fn is_white_space_char(c: char) -> (b: bool)
    ensures
        b == is_white_space(c),
{
    let u = c as u32;
    (0x09 <= u && u <= 0x0D) || u == 0x20 || u == 0x85 || u == 0xA0 || u == 0x1680 || (0x2000 <= u
        && u <= 0x200A) || u == 0x2028 || u == 0x2029 || u == 0x202F || u == 0x205F || u == 0x3000
}

fn chars_of(s: &str) -> (v: Vec<char>)
    ensures
        v@ == s@,
{
    broadcast use vstd::string::group_string_axioms;

    let mut v: Vec<char> = Vec::new();
    for c in it: s.chars()
        invariant
            v@ == it.history(),
    {
        v.push(c);
    }
    v
}

/// Bounds of the part of `chars[from..to]` that trimming keeps.
fn trim_bounds(chars: &Vec<char>, from: usize, to: usize) -> (bounds: (usize, usize))
    requires
        from <= to <= chars.len(),
    ensures
        from <= bounds.0 <= bounds.1 <= to,
        chars@.subrange(bounds.0 as int, bounds.1 as int) == trimmed(
            chars@.subrange(from as int, to as int),
        ),
{
    let mut i = from;
    while i < to && is_white_space_char(chars[i])
        invariant
            from <= i <= to <= chars.len(),
            trim_front(chars@.subrange(from as int, to as int)) == trim_front(
                chars@.subrange(i as int, to as int),
            ),
        decreases to - i,
    {
        assert(chars@.subrange(i as int, to as int).drop_first() =~= chars@.subrange(
            i + 1,
            to as int,
        ));
        i += 1;
    }
    let mut j = to;
    while j > i && is_white_space_char(chars[j - 1])
        invariant
            from <= i <= j <= to <= chars.len(),
            trim_back(chars@.subrange(i as int, to as int)) == trim_back(
                chars@.subrange(i as int, j as int),
            ),
        decreases j - i,
    {
        assert(chars@.subrange(i as int, j as int).drop_last() =~= chars@.subrange(
            i as int,
            j - 1,
        ));
        j -= 1;
    }
    (i, j)
}

/// `s` without leading and trailing white space, as `str::trim` gives it.
pub fn trim_text(s: &str) -> (t: String)
    ensures
        t@ == trimmed(s@),
{
    let chars = chars_of(s);
    let (i, j) = trim_bounds(&chars, 0, chars.len());
    assert(chars@.subrange(0, chars.len() as int) =~= s@);
    String::from_str(s.substring_char(i, j))
}

/// The five characters that open the line holding the spot price.
pub open spec fn spot_marker() -> Seq<char> {
    seq!['S', 'P', 'O', 'T', '=']
}

/// End of the line that runs from `p`: the position of the next line feed,
/// or the end of the text.
pub open spec fn line_end(s: Seq<char>, p: int) -> int
    decreases s.len() - p,
{
    if p >= s.len() || p < 0 {
        s.len() as int
    } else if s[p] == '\n' {
        p
    } else {
        line_end(s, p + 1)
    }
}

/// Whether the line that starts at `p` opens with `SPOT=`.
pub open spec fn opens_with_marker(s: Seq<char>, p: int) -> bool {
    0 <= p && p + 5 <= s.len() && s.subrange(p, p + 5) == spot_marker()
}

/// Walks the lines of `s` from the line that starts at `p`: the trimmed rest
/// of the first line that opens with `SPOT=`, if any.
pub open spec fn spot_value_from(s: Seq<char>, p: int) -> Option<Seq<char>>
    decreases s.len() - p,
{
    if p < 0 || p >= s.len() {
        None
    } else if opens_with_marker(s, p) {
        Some(trimmed(s.subrange(p + 5, line_end(s, p + 5))))
    } else if line_end(s, p) < s.len() {
        proof {
            lemma_line_end_bounds(s, p);
        }
        spot_value_from(s, line_end(s, p) + 1)
    } else {
        None
    }
}

/// The line that runs from `p` ends at or after `p`, at a line feed or at the
/// end of the text.
pub proof fn lemma_line_end_bounds(s: Seq<char>, p: int)
    requires
        0 <= p <= s.len(),
    ensures
        p <= line_end(s, p) <= s.len(),
        line_end(s, p) < s.len() ==> s[line_end(s, p)] == '\n',
    decreases s.len() - p,
{
    if p < s.len() && s[p] != '\n' {
        lemma_line_end_bounds(s, p + 1);
    }
}

/// Position of the next line feed at or after `p`, or the length of the text.
fn find_line_end(chars: &Vec<char>, p: usize) -> (e: usize)
    requires
        p <= chars.len(),
    ensures
        e == line_end(chars@, p as int),
{
    let mut e = p;
    while e < chars.len() && chars[e] != '\n'
        invariant
            p <= e <= chars.len(),
            line_end(chars@, p as int) == line_end(chars@, e as int),
        decreases chars.len() - e,
    {
        e += 1;
    }
    e
}

/// The text of the spot price in the report of the quote fetcher: the rest,
/// trimmed, of the first line that opens with `SPOT=`; `None` when no line
/// does.
pub fn spot_text(report: &str) -> (spot: Option<String>)
    ensures
        spot matches Some(t) ==> spot_value_from(report@, 0) == Some(t@),
        spot is None ==> spot_value_from(report@, 0) is None,
        forall|p: int|
            first_spot_line(report@, p) ==> (spot matches Some(t) && t@ == trimmed(
                report@.subrange(p + 5, line_end(report@, p + 5)),
            )),
        (forall|q: int|
            0 <= q < report@.len() && #[trigger] starts_line(report@, q) ==> !opens_with_marker(
                report@,
                q,
            )) ==> spot is None,
{
    proof {
        spot_from_first_marked_line(report@);
    }
    scan_for_spot(report)
}

fn scan_for_spot(report: &str) -> (spot: Option<String>)
    ensures
        spot matches Some(t) ==> spot_value_from(report@, 0) == Some(t@),
        spot is None ==> spot_value_from(report@, 0) is None,
{
    let chars = chars_of(report);
    let n = chars.len();
    let mut p: usize = 0;
    while p < n
        invariant
            n == chars.len(),
            chars@ == report@,
            p <= n,
            spot_value_from(report@, 0) == spot_value_from(report@, p as int),
        decreases n - p,
    {
        if n - p >= 5 && chars[p] == 'S' && chars[p + 1] == 'P' && chars[p + 2] == 'O' && chars[p
            + 3] == 'T' && chars[p + 4] == '=' {
            assert(chars@.subrange(p as int, p + 5) =~= spot_marker());
            proof {
                lemma_line_end_bounds(chars@, p + 5);
            }
            let e = find_line_end(&chars, p + 5);
            let (i, j) = trim_bounds(&chars, p + 5, e);
            return Some(String::from_str(report.substring_char(i, j)));
        }
        assert(!opens_with_marker(chars@, p as int)) by {
            if opens_with_marker(chars@, p as int) {
                assert(chars@.subrange(p as int, p + 5)[0] == 'S');
                assert(chars@.subrange(p as int, p + 5)[1] == 'P');
                assert(chars@.subrange(p as int, p + 5)[2] == 'O');
                assert(chars@.subrange(p as int, p + 5)[3] == 'T');
                assert(chars@.subrange(p as int, p + 5)[4] == '=');
            }
        }
        proof {
            lemma_line_end_bounds(chars@, p as int);
        }
        let e = find_line_end(&chars, p);
        if e == n {
            return None;
        }
        p = e + 1;
    }
    None
}

/// A line of `s` starts at `p`: at the start of the text or right after a
/// line feed.
pub open spec fn starts_line(s: Seq<char>, p: int) -> bool {
    p == 0 || (0 < p <= s.len() && s[p - 1] == '\n')
}

/// `p` starts the first line of `s` that opens with `SPOT=`.
pub open spec fn first_spot_line(s: Seq<char>, p: int) -> bool {
    &&& 0 <= p < s.len()
    &&& starts_line(s, p)
    &&& opens_with_marker(s, p)
    &&& forall|q: int| 0 <= q < p && #[trigger] starts_line(s, q) ==> !opens_with_marker(s, q)
}

proof fn lemma_line_end_before_break(s: Seq<char>, r: int, k: int)
    requires
        0 <= r <= k < s.len(),
        s[k] == '\n',
    ensures
        line_end(s, r) <= k,
    decreases k - r,
{
    if s[r] != '\n' {
        lemma_line_end_before_break(s, r + 1, k);
    }
}

proof fn lemma_walk_reaches(s: Seq<char>, p: int, r: int)
    requires
        first_spot_line(s, p),
        0 <= r <= p,
        starts_line(s, r),
    ensures
        spot_value_from(s, r) == Some(trimmed(s.subrange(p + 5, line_end(s, p + 5)))),
    decreases p - r,
{
    if r < p {
        assert(!opens_with_marker(s, r));
        lemma_line_end_before_break(s, r, p - 1);
        lemma_line_end_bounds(s, r);
        let e = line_end(s, r);
        assert(s[e] == '\n');
        lemma_walk_reaches(s, p, e + 1);
    }
}

proof fn lemma_walk_finds_nothing(s: Seq<char>, r: int)
    requires
        0 <= r,
        starts_line(s, r) || r >= s.len(),
        forall|q: int| 0 <= q < s.len() && #[trigger] starts_line(s, q) ==> !opens_with_marker(s, q),
    ensures
        spot_value_from(s, r) is None,
    decreases s.len() - r,
{
    if r < s.len() {
        assert(!opens_with_marker(s, r));
        lemma_line_end_bounds(s, r);
        let e = line_end(s, r);
        if e < s.len() {
            assert(starts_line(s, e + 1));
            lemma_walk_finds_nothing(s, e + 1);
        }
    }
}

/// The spot text is read from the first line, the very first line included,
/// that opens with `SPOT=`: the trimmed rest of that line, whatever lines
/// follow; and there is none exactly when no line opens with `SPOT=`.
pub proof fn spot_from_first_marked_line(s: Seq<char>)
    ensures
        forall|p: int|
            first_spot_line(s, p) ==> spot_value_from(s, 0) == Some(
                trimmed(s.subrange(p + 5, line_end(s, p + 5))),
            ),
        (forall|q: int| 0 <= q < s.len() && #[trigger] starts_line(s, q) ==> !opens_with_marker(s, q))
            ==> spot_value_from(s, 0) is None,
{
    assert forall|p: int| first_spot_line(s, p) implies spot_value_from(s, 0) == Some(
        trimmed(s.subrange(p + 5, line_end(s, p + 5))),
    ) by {
        lemma_walk_reaches(s, p, 0);
    }
    if forall|q: int| 0 <= q < s.len() && #[trigger] starts_line(s, q) ==> !opens_with_marker(s, q) {
        lemma_walk_finds_nothing(s, 0);
    }
}

} // verus!
