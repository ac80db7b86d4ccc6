use vstd::prelude::*;

use crate::platform::push_char;

verus! {

broadcast use vstd::string::group_string_axioms;

/// The characters of `s`, in order.
pub fn chars_of(s: &str) -> (out: Vec<char>)
    ensures
        out@ == s@,
{
    let mut out: Vec<char> = Vec::new();
    for c in it: s.chars()
        invariant
            out@ == it.seq().take(it.index() as int),
            it.seq() == s@,
    {
        out.push(c);
    }
    out
}

/// A `String` holding the characters of `v`.
pub fn string_from(v: &Vec<char>) -> (out: String)
    ensures
        out@ == v@,
{
    let mut out = String::new();
    let mut i: usize = 0;
    while i < v.len()
        invariant
            i <= v.len(),
            out@ == v@.take(i as int),
        decreases v.len() - i,
    {
        push_char(&mut out, v[i]);
        assert(v@.take(i + 1) =~= v@.take(i as int).push(v@[i as int]));
        i = i + 1;
    }
    assert(v@.take(i as int) =~= v@);
    out
}

/// Unicode `White_Space`, the set that `char::is_whitespace` tests.
pub open spec fn is_ws(c: char) -> bool {
    let n = c as u32;
    ||| 9 <= n <= 13
    ||| n == 32
    ||| n == 0x85
    ||| n == 0xA0
    ||| n == 0x1680
    ||| 0x2000 <= n <= 0x200A
    ||| n == 0x2028
    ||| n == 0x2029
    ||| n == 0x202F
    ||| n == 0x205F
    ||| n == 0x3000
}

/// Index of the first `c` in `s`, or -1 when there is none.
pub open spec fn index_of(s: Seq<char>, c: char) -> int
    decreases s.len(),
{
    if s.len() == 0 {
        -1
    } else if s[0] == c {
        0
    } else {
        let r = index_of(s.drop_first(), c);
        if r < 0 {
            -1
        } else {
            r + 1
        }
    }
}

/// What `index_of` finds: the first occurrence, or -1 when `c` does not occur.
pub proof fn lemma_index_of(s: Seq<char>, c: char)
    ensures
        -1 <= index_of(s, c) < s.len(),
        index_of(s, c) >= 0 ==> s[index_of(s, c)] == c,
        forall|k: int| 0 <= k < s.len() && (index_of(s, c) < 0 || k < index_of(s, c)) ==> s[k] != c,
    decreases s.len(),
{
    if s.len() > 0 && s[0] != c {
        lemma_index_of(s.drop_first(), c);
        assert forall|k: int| 0 <= k < s.len() && (index_of(s, c) < 0 || k < index_of(s, c)) implies s[k] != c by {
            if k > 0 {
                assert(s[k] == s.drop_first()[k - 1]);
            }
        }
    }
}

/// The first occurrence is determined by where `c` first appears.
pub proof fn lemma_index_of_at(s: Seq<char>, c: char, i: int)
    requires
        -1 <= i < s.len(),
        i >= 0 ==> s[i] == c,
        forall|k: int| 0 <= k < s.len() && (i < 0 || k < i) ==> s[k] != c,
    ensures
        index_of(s, c) == i,
{
    lemma_index_of(s, c);
    let r = index_of(s, c);
    if r >= 0 && i >= 0 {
        if r < i {
            assert(s[r] != c);
        } else if i < r {
            assert(s[i] != c);
        }
    } else if r >= 0 {
        assert(s[r] != c);
    } else if i >= 0 {
        assert(s[i] != c);
    }
}

/// Characters of `s` from `lo` up to `hi`, copied.
pub fn copy_range(s: &Vec<char>, lo: usize, hi: usize) -> (out: Vec<char>)
    requires
        lo <= hi <= s.len(),
    ensures
        out@ == s@.subrange(lo as int, hi as int),
{
    let mut out: Vec<char> = Vec::new();
    let mut i = lo;
    while i < hi
        invariant
            lo <= i <= hi <= s.len(),
            out@ == s@.subrange(lo as int, i as int),
        decreases hi - i,
    {
        out.push(s[i]);
        i = i + 1;
    }
    out
}

/// Position of the first `c` at or after `from`, if any.
pub fn find_from(s: &Vec<char>, from: usize, c: char) -> (r: Option<usize>)
    requires
        from <= s.len(),
    ensures
        r is None ==> index_of(s@.skip(from as int), c) < 0,
        r matches Some(i) ==> from <= i < s.len() && index_of(s@.skip(from as int), c) == i - from,
{
    let mut i = from;
    while i < s.len()
        invariant
            from <= i <= s.len(),
            forall|k: int| from <= k < i ==> s@[k] != c,
        decreases s.len() - i,
    {
        if s[i] == c {
            proof {
                lemma_index_of_at(s@.skip(from as int), c, i - from);
            }
            return Some(i);
        }
        i = i + 1;
    }
    proof {
        lemma_index_of_at(s@.skip(from as int), c, -1);
    }
    None
}

/// The lines of `s` as `str::lines` yields them: split after each `'\n'`,
/// with the `'\n'` and one `'\r'` just before it removed, and no empty line
/// after a final `'\n'`.
pub open spec fn lines(s: Seq<char>) -> Seq<Seq<char>>
    decreases s.len(),
{
    if s.len() == 0 {
        seq![]
    } else {
        let i = index_of(s, '\n');
        if i < 0 {
            seq![s]
        } else {
            proof {
                lemma_index_of(s, '\n');
            }
            seq![strip_cr(s.take(i))] + lines(s.skip(i + 1))
        }
    }
}

/// `s` without one trailing `'\r'`.
pub open spec fn strip_cr(s: Seq<char>) -> Seq<char> {
    if s.len() > 0 && s.last() == '\r' {
        s.drop_last()
    } else {
        s
    }
}

/// The character sequences held by a sequence of vectors.
pub open spec fn views(v: Seq<Vec<char>>) -> Seq<Seq<char>> {
    v.map_values(|x: Vec<char>| x@)
}

/// The character sequences held by a sequence of strings.
pub open spec fn string_views(v: Seq<String>) -> Seq<Seq<char>> {
    v.map_values(|x: String| x@)
}

/// Splits `s` into lines, as `str::lines` does.
pub fn split_lines(s: &Vec<char>) -> (out: Vec<Vec<char>>)
    ensures
        views(out@) == lines(s@),
{
    let mut out: Vec<Vec<char>> = Vec::new();
    let mut pos: usize = 0;
    assert(s@.skip(0) =~= s@);
    assert(views(out@) =~= seq![]);
    assert(seq![] + lines(s@) =~= lines(s@));
    while pos < s.len()
        invariant
            pos <= s.len(),
            views(out@) + lines(s@.skip(pos as int)) == lines(s@),
        decreases s.len() - pos,
    {
        let ghost rest = s@.skip(pos as int);
        match find_from(s, pos, '\n') {
            None => {
                let line = copy_range(s, pos, s.len());
                proof {
                    assert(line@ == rest);
                    assert(lines(rest) == seq![rest]);
                    assert(views(out@).push(line@) =~= views(out@) + lines(rest));
                }
                out.push(line);
                pos = s.len();
                proof {
                    assert(lines(s@.skip(pos as int)) =~= seq![]);
                    assert(views(out@) + lines(s@.skip(pos as int)) =~= views(out@));
                }
            },
            Some(i) => {
                let end = if i > pos && s[i - 1] == '\r' {
                    i - 1
                } else {
                    i
                };
                let line = copy_range(s, pos, end);
                proof {
                    let k = i - pos;
                    lemma_index_of(rest, '\n');
                    assert(line@ =~= strip_cr(rest.take(k)));
                    assert(rest.skip(k + 1) =~= s@.skip(i + 1));
                    assert(lines(rest) == seq![strip_cr(rest.take(k))] + lines(rest.skip(k + 1)));
                }
                let ghost before = views(out@);
                out.push(line);
                pos = i + 1;
                proof {
                    assert(views(out@) =~= before.push(line@));
                    assert(before + lines(rest) =~= views(out@) + lines(s@.skip(pos as int)));
                }
            },
        }
    }
    proof {
        assert(lines(s@.skip(pos as int)) =~= seq![]);
        assert(views(out@) + seq![] =~= views(out@));
    }
    out
}


/// Tests `char::is_whitespace`.
pub fn is_whitespace(c: char) -> (r: bool)
    ensures
        r == is_ws(c),
{
    let n = c as u32;
    (9 <= n && n <= 13) || n == 32 || n == 0x85 || n == 0xA0 || n == 0x1680 || (0x2000 <= n && n
        <= 0x200A) || n == 0x2028 || n == 0x2029 || n == 0x202F || n == 0x205F || n == 0x3000
}

/// Length of the run of non-whitespace characters that starts `s`.
pub open spec fn word_len(s: Seq<char>) -> nat
    decreases s.len(),
{
    if s.len() == 0 || is_ws(s[0]) {
        0
    } else {
        1 + word_len(s.drop_first())
    }
}

/// The leading word ends at the first whitespace character, or at the end.
pub proof fn lemma_word_len(s: Seq<char>)
    ensures
        word_len(s) <= s.len(),
        forall|k: int| 0 <= k < word_len(s) ==> !is_ws(#[trigger] s[k]),
        word_len(s) < s.len() ==> is_ws(s[word_len(s) as int]),
    decreases s.len(),
{
    if s.len() > 0 && !is_ws(s[0]) {
        lemma_word_len(s.drop_first());
        assert forall|k: int| 0 <= k < word_len(s) implies !is_ws(#[trigger] s[k]) by {
            if k > 0 {
                assert(s[k] == s.drop_first()[k - 1]);
            }
        }
        if word_len(s) < s.len() {
            assert(s[word_len(s) as int] == s.drop_first()[word_len(s) - 1]);
        }
    }
}

/// A word ending at `j` has length `j`.
pub proof fn lemma_word_len_at(s: Seq<char>, j: int)
    requires
        0 <= j <= s.len(),
        forall|k: int| 0 <= k < j ==> !is_ws(#[trigger] s[k]),
        j < s.len() ==> is_ws(s[j]),
    ensures
        word_len(s) == j,
{
    lemma_word_len(s);
    let n = word_len(s) as int;
    if n < j {
        assert(!is_ws(s[n]));
    } else if j < n {
        assert(!is_ws(s[j]));
    }
}

/// The pieces of `s` between runs of whitespace, as `str::split_whitespace`
/// yields them.
pub open spec fn split_ws(s: Seq<char>) -> Seq<Seq<char>>
    decreases s.len(),
{
    if s.len() == 0 {
        seq![]
    } else if is_ws(s[0]) {
        split_ws(s.drop_first())
    } else {
        proof {
            lemma_word_len(s);
        }
        let n = word_len(s) as int;
        seq![s.take(n)] + split_ws(s.skip(n))
    }
}

/// Every piece that `split_ws` gives holds at least one character, none of
/// them whitespace.
pub proof fn lemma_split_ws_words(s: Seq<char>)
    ensures
        forall|i: int| 0 <= i < split_ws(s).len() ==> #[trigger] split_ws(s)[i].len() > 0,
    decreases s.len(),
{
    if s.len() > 0 {
        if is_ws(s[0]) {
            lemma_split_ws_words(s.drop_first());
            assert(split_ws(s) == split_ws(s.drop_first()));
        } else {
            lemma_word_len(s);
            let n = word_len(s) as int;
            lemma_split_ws_words(s.skip(n));
            assert(n >= 1);
            assert(split_ws(s) == seq![s.take(n)] + split_ws(s.skip(n)));
            assert forall|i: int| 0 <= i < split_ws(s).len() implies #[trigger] split_ws(s)[i].len() > 0 by {
                if i > 0 {
                    assert(split_ws(s)[i] == split_ws(s.skip(n))[i - 1]);
                } else {
                    assert(split_ws(s)[0] == s.take(n));
                }
            }
        }
    }
}

/// Splits `s` at whitespace, as `str::split_whitespace` does.
pub fn split_whitespace(s: &Vec<char>) -> (out: Vec<Vec<char>>)
    ensures
        views(out@) == split_ws(s@),
{
    let mut out: Vec<Vec<char>> = Vec::new();
    let mut pos: usize = 0;
    assert(s@.skip(0) =~= s@);
    assert(views(out@) =~= seq![]);
    assert(seq![] + split_ws(s@) =~= split_ws(s@));
    while pos < s.len()
        invariant
            pos <= s.len(),
            views(out@) + split_ws(s@.skip(pos as int)) == split_ws(s@),
        decreases s.len() - pos,
    {
        let ghost rest = s@.skip(pos as int);
        if is_whitespace(s[pos]) {
            assert(rest.drop_first() =~= s@.skip(pos + 1));
            pos = pos + 1;
        } else {
            let mut j = pos + 1;
            while j < s.len() && !is_whitespace(s[j])
                invariant
                    pos < j <= s.len(),
                    forall|k: int| pos <= k < j ==> !is_ws(#[trigger] s@[k]),
                decreases s.len() - j,
            {
                j = j + 1;
            }
            let word = copy_range(s, pos, j);
            proof {
                assert forall|k: int| 0 <= k < j - pos implies !is_ws(#[trigger] rest[k]) by {
                    assert(rest[k] == s@[pos + k]);
                }
                if j < s.len() {
                    assert(rest[j - pos] == s@[j as int]);
                }
                lemma_word_len_at(rest, j - pos);
                assert(word@ =~= rest.take(j - pos));
                assert(rest.skip(j - pos) =~= s@.skip(j as int));
            }
            let ghost before = views(out@);
            out.push(word);
            pos = j;
            proof {
                assert(views(out@) =~= before.push(word@));
                assert(before + split_ws(rest) =~= views(out@) + split_ws(s@.skip(pos as int)));
            }
        }
    }
    proof {
        assert(split_ws(s@.skip(pos as int)) =~= seq![]);
        assert(views(out@) + seq![] =~= views(out@));
    }
    out
}

/// Number of whitespace characters at the start of `s`.
pub open spec fn lead_ws(s: Seq<char>) -> nat
    decreases s.len(),
{
    if s.len() > 0 && is_ws(s[0]) {
        1 + lead_ws(s.drop_first())
    } else {
        0
    }
}

/// Number of whitespace characters at the end of `s`.
pub open spec fn trail_ws(s: Seq<char>) -> nat
    decreases s.len(),
{
    if s.len() > 0 && is_ws(s.last()) {
        1 + trail_ws(s.drop_last())
    } else {
        0
    }
}

/// `s` with leading and trailing whitespace removed, as `str::trim` gives it.
pub open spec fn trim(s: Seq<char>) -> Seq<char> {
    let t = s.skip(lead_ws(s) as int);
    t.take(t.len() - trail_ws(t))
}

proof fn lemma_lead_ws_at(s: Seq<char>, i: int)
    requires
        0 <= i <= s.len(),
        forall|k: int| 0 <= k < i ==> is_ws(#[trigger] s[k]),
        i < s.len() ==> !is_ws(s[i]),
    ensures
        lead_ws(s) == i,
    decreases i,
{
    if i > 0 {
        assert forall|k: int| 0 <= k < i - 1 implies is_ws(#[trigger] s.drop_first()[k]) by {
            assert(s.drop_first()[k] == s[k + 1]);
        }
        if i < s.len() {
            assert(s.drop_first()[i - 1] == s[i]);
        }
        lemma_lead_ws_at(s.drop_first(), i - 1);
    }
}

proof fn lemma_trail_ws_at(s: Seq<char>, i: int)
    requires
        0 <= i <= s.len(),
        forall|k: int| i <= k < s.len() ==> is_ws(#[trigger] s[k]),
        i > 0 ==> !is_ws(s[i - 1]),
    ensures
        trail_ws(s) == s.len() - i,
    decreases s.len() - i,
{
    if i < s.len() {
        assert forall|k: int| i <= k < s.len() - 1 implies is_ws(#[trigger] s.drop_last()[k]) by {
            assert(s.drop_last()[k] == s[k]);
        }
        if i > 0 {
            assert(s.drop_last()[i - 1] == s[i - 1]);
        }
        lemma_trail_ws_at(s.drop_last(), i);
    }
}

/// Removes leading and trailing whitespace, as `str::trim` does.
pub fn trim_chars(s: &Vec<char>) -> (out: Vec<char>)
    ensures
        out@ == trim(s@),
{
    let mut lo: usize = 0;
    while lo < s.len() && is_whitespace(s[lo])
        invariant
            lo <= s.len(),
            forall|k: int| 0 <= k < lo ==> is_ws(#[trigger] s@[k]),
        decreases s.len() - lo,
    {
        lo = lo + 1;
    }
    let mut hi: usize = s.len();
    while hi > lo && is_whitespace(s[hi - 1])
        invariant
            lo <= hi <= s.len(),
            forall|k: int| hi <= k < s.len() ==> is_ws(#[trigger] s@[k]),
        decreases hi - lo,
    {
        hi = hi - 1;
    }
    proof {
        lemma_lead_ws_at(s@, lo as int);
        let t = s@.skip(lo as int);
        assert forall|k: int| hi - lo <= k < t.len() implies is_ws(#[trigger] t[k]) by {
            assert(t[k] == s@[lo + k]);
        }
        if hi > lo {
            assert(t[hi - lo - 1] == s@[hi - 1]);
        }
        lemma_trail_ws_at(t, hi - lo);
        assert(t.take(t.len() - trail_ws(t)) =~= s@.subrange(lo as int, hi as int));
    }
    copy_range(s, lo, hi)
}

/// `s` begins with `p`.
pub open spec fn starts_with(s: Seq<char>, p: Seq<char>) -> bool {
    p.len() <= s.len() && s.take(p.len() as int) == p
}

/// `s` ends with `p`.
pub open spec fn ends_with(s: Seq<char>, p: Seq<char>) -> bool {
    p.len() <= s.len() && s.skip(s.len() - p.len()) == p
}

/// `s` without the prefix `p`, as `str::strip_prefix` gives it.
pub open spec fn strip_prefix(s: Seq<char>, p: Seq<char>) -> Option<Seq<char>> {
    if starts_with(s, p) {
        Some(s.skip(p.len() as int))
    } else {
        None
    }
}

/// `s` without the suffix `p`, as `str::strip_suffix` gives it.
pub open spec fn strip_suffix(s: Seq<char>, p: Seq<char>) -> Option<Seq<char>> {
    if ends_with(s, p) {
        Some(s.take(s.len() - p.len()))
    } else {
        None
    }
}

/// Tests whether `s` begins with `p`.
pub fn has_prefix(s: &Vec<char>, p: &Vec<char>) -> (r: bool)
    ensures
        r == starts_with(s@, p@),
{
    if p.len() > s.len() {
        return false;
    }
    let mut i: usize = 0;
    while i < p.len()
        invariant
            p.len() <= s.len(),
            i <= p.len(),
            forall|k: int| 0 <= k < i ==> s@[k] == p@[k],
        decreases p.len() - i,
    {
        if s[i] != p[i] {
            assert(s@.take(p@.len() as int)[i as int] != p@[i as int]);
            return false;
        }
        i = i + 1;
    }
    assert(s@.take(p@.len() as int) =~= p@);
    true
}

/// Tests whether `a` and `b` hold the same characters.
pub fn chars_eq(a: &Vec<char>, b: &Vec<char>) -> (r: bool)
    ensures
        r == (a@ == b@),
{
    if a.len() != b.len() {
        return false;
    }
    let r = has_prefix(a, b);
    assert(a@.take(b@.len() as int) =~= a@);
    r
}

/// Tests whether `s` ends with `p`.
pub fn has_suffix(s: &Vec<char>, p: &Vec<char>) -> (r: bool)
    ensures
        r == ends_with(s@, p@),
{
    if p.len() > s.len() {
        return false;
    }
    let off = s.len() - p.len();
    let mut i: usize = 0;
    while i < p.len()
        invariant
            p.len() <= s.len(),
            off == s.len() - p.len(),
            i <= p.len(),
            forall|k: int| 0 <= k < i ==> s@[off + k] == p@[k],
        decreases p.len() - i,
    {
        if s[off + i] != p[i] {
            assert(s@.skip(off as int)[i as int] != p@[i as int]);
            return false;
        }
        i = i + 1;
    }
    assert(s@.skip(off as int) =~= p@);
    true
}

/// Removes the prefix `p`, as `str::strip_prefix` does.
pub fn chars_strip_prefix(s: &Vec<char>, p: &Vec<char>) -> (r: Option<Vec<char>>)
    ensures
        r matches Some(v) ==> strip_prefix(s@, p@) == Some(v@),
        r is None ==> strip_prefix(s@, p@) is None,
{
    if has_prefix(s, p) {
        Some(copy_range(s, p.len(), s.len()))
    } else {
        None
    }
}

/// Removes the suffix `p`, as `str::strip_suffix` does.
pub fn chars_strip_suffix(s: &Vec<char>, p: &Vec<char>) -> (r: Option<Vec<char>>)
    ensures
        r matches Some(v) ==> strip_suffix(s@, p@) == Some(v@),
        r is None ==> strip_suffix(s@, p@) is None,
{
    if has_suffix(s, p) {
        Some(copy_range(s, 0, s.len() - p.len()))
    } else {
        None
    }
}


/// Why a text is not an unsigned integer, as `core::num::IntErrorKind` tells it.
#[derive(Clone, Copy, Debug, PartialEq, Eq, Structural)]
pub enum IntErrorKind {
    Empty,
    InvalidDigit,
    PosOverflow,
}

/// The message that `ParseIntError` displays for each kind.
pub open spec fn int_error_message(k: IntErrorKind) -> Seq<char> {
    match k {
        IntErrorKind::Empty => "cannot parse integer from empty string"@,
        IntErrorKind::InvalidDigit => "invalid digit found in string"@,
        IntErrorKind::PosOverflow => "number too large to fit in target type"@,
    }
}

/// Builds the message that `ParseIntError` displays.
pub fn int_error_text(k: IntErrorKind) -> (out: String)
    ensures
        out@ == int_error_message(k),
{
    match k {
        IntErrorKind::Empty => "cannot parse integer from empty string".to_owned(),
        IntErrorKind::InvalidDigit => "invalid digit found in string".to_owned(),
        IntErrorKind::PosOverflow => "number too large to fit in target type".to_owned(),
    }
}

/// Value of `c` as a digit in base `radix` (10 or 16, either case), or -1.
pub open spec fn digit_val(c: char, radix: int) -> int {
    let n = c as u32 as int;
    if 48 <= n <= 57 {
        n - 48
    } else if radix == 16 && 97 <= n <= 102 {
        n - 87
    } else if radix == 16 && 65 <= n <= 70 {
        n - 55
    } else {
        -1
    }
}

/// Reads the digits `d` left to right after the value `acc`, stopping at the
/// first character that is no digit or at the first digit that takes the
/// value above `max`.
pub open spec fn scan_digits(d: Seq<char>, acc: int, max: int, radix: int) -> Result<int, IntErrorKind>
    decreases d.len(),
{
    if d.len() == 0 {
        Ok(acc)
    } else {
        let x = digit_val(d[0], radix);
        if x < 0 {
            Err(IntErrorKind::InvalidDigit)
        } else if acc * radix + x > max {
            Err(IntErrorKind::PosOverflow)
        } else {
            scan_digits(d.drop_first(), acc * radix + x, max, radix)
        }
    }
}

/// What `from_str_radix` gives for an unsigned type whose largest value is
/// `max`: an optional `+`, then at least one digit, with the value at most `max`.
pub open spec fn parse_uint(s: Seq<char>, max: int, radix: int) -> Result<int, IntErrorKind> {
    if s.len() == 0 {
        Err(IntErrorKind::Empty)
    } else if s.len() == 1 && (s[0] == '+' || s[0] == '-') {
        Err(IntErrorKind::InvalidDigit)
    } else if s[0] == '+' {
        scan_digits(s.drop_first(), 0, max, radix)
    } else {
        scan_digits(s, 0, max, radix)
    }
}

/// Parses an unsigned integer in base `radix`, as `from_str_radix` does for
/// the type whose largest value is `max`.
pub fn parse_uint_chars(s: &Vec<char>, max: u64, radix: u64) -> (r: Result<u64, IntErrorKind>)
    requires
        radix == 10 || radix == 16,
    ensures
        r matches Ok(v) ==> v <= max,
        r matches Ok(v) ==> parse_uint(s@, max as int, radix as int) == Ok::<int, IntErrorKind>(
            v as int,
        ),
        r matches Err(k) ==> parse_uint(s@, max as int, radix as int) == Err::<int, IntErrorKind>(k),
{
    if s.len() == 0 {
        return Err(IntErrorKind::Empty);
    }
    if s.len() == 1 && (s[0] == '+' || s[0] == '-') {
        return Err(IntErrorKind::InvalidDigit);
    }
    let start: usize = if s[0] == '+' {
        1
    } else {
        0
    };
    assert(start == 1 ==> s@.skip(1) =~= s@.drop_first());
    assert(start == 0 ==> s@.skip(0) =~= s@);
    let mut acc: u64 = 0;
    let mut i: usize = start;
    while i < s.len()
        invariant
            start <= i <= s.len(),
            radix == 10 || radix == 16,
            acc <= max,
            parse_uint(s@, max as int, radix as int) == scan_digits(
                s@.skip(i as int),
                acc as int,
                max as int,
                radix as int,
            ),
        decreases s.len() - i,
    {
        let c = s[i];
        let n = c as u32;
        assert(n as int == c as u32 as int);
        let x: u64 = if 48 <= n && n <= 57 {
            (n - 48) as u64
        } else if radix == 16 && 97 <= n && n <= 102 {
            (n - 87) as u64
        } else if radix == 16 && 65 <= n && n <= 70 {
            (n - 55) as u64
        } else {
            assert(digit_val(s@.skip(i as int)[0], radix as int) < 0);
            return Err(IntErrorKind::InvalidDigit);
        };
        assert(s@.skip(i as int)[0] == c);
        assert(digit_val(c, radix as int) == x as int);
        assert(acc as int * radix as int <= u64::MAX as int * 16) by (nonlinear_arith)
            requires
                acc <= u64::MAX,
                radix <= 16,
        ;
        let next: u128 = acc as u128 * radix as u128 + x as u128;
        if next > max as u128 {
            assert(next as int == acc as int * radix as int + x as int);
            return Err(IntErrorKind::PosOverflow);
        }
        assert(s@.skip(i as int).drop_first() =~= s@.skip(i + 1));
        acc = next as u64;
        i = i + 1;
    }
    assert(s@.skip(i as int) =~= seq![]);
    Ok(acc)
}

/// The second piece of `s` split at `c`, as `str::split(c).nth(1)` gives it:
/// the text between the first and the second `c`, or up to the end.
pub open spec fn second_field(s: Seq<char>, c: char) -> Option<Seq<char>> {
    let i = index_of(s, c);
    if i < 0 {
        None
    } else {
        let rest = s.skip(i + 1);
        let j = index_of(rest, c);
        if j < 0 {
            Some(rest)
        } else {
            Some(rest.take(j))
        }
    }
}

/// Takes the second piece of `s` split at `c`.
pub fn chars_second_field(s: &Vec<char>, c: char) -> (r: Option<Vec<char>>)
    ensures
        r matches Some(v) ==> second_field(s@, c) == Some(v@),
        r is None ==> second_field(s@, c) is None,
{
    match find_from(s, 0, c) {
        None => {
            assert(s@.skip(0) =~= s@);
            None
        },
        Some(i) => {
            assert(s@.skip(0) =~= s@);
            match find_from(s, i + 1, c) {
                None => Some(copy_range(s, i + 1, s.len())),
                Some(j) => {
                    let out = copy_range(s, i + 1, j);
                    assert(out@ =~= s@.skip(i + 1).take(j - (i + 1)));
                    Some(out)
                },
            }
        },
    }
}

/// Whether `p` occurs in `s` at position `i`.
pub fn occurs_at(s: &Vec<char>, p: &Vec<char>, i: usize) -> (r: bool)
    requires
        i <= s.len(),
    ensures
        r == (i + p.len() <= s.len() && s@.subrange(i as int, i + p.len()) == p@),
{
    if p.len() > s.len() - i {
        return false;
    }
    let mut k: usize = 0;
    while k < p.len()
        invariant
            i + p.len() <= s.len(),
            k <= p.len(),
            forall|j: int| 0 <= j < k ==> s@[i + j] == p@[j],
        decreases p.len() - k,
    {
        if s[i + k] != p[k] {
            assert(s@.subrange(i as int, i + p.len())[k as int] != p@[k as int]);
            return false;
        }
        k = k + 1;
    }
    assert(s@.subrange(i as int, i + p.len()) =~= p@);
    true
}

/// `p` occurs somewhere in `s`.
pub open spec fn contains_seq(s: Seq<char>, p: Seq<char>) -> bool {
    exists|i: int| 0 <= i && i + p.len() <= s.len() && #[trigger] s.subrange(i, i + p.len()) == p
}

/// Tests whether `p` occurs in `s`, as `str::contains` does.
pub fn contains_chars(s: &Vec<char>, p: &Vec<char>) -> (r: bool)
    ensures
        r == contains_seq(s@, p@),
{
    let mut i: usize = 0;
    while i < s.len()
        invariant
            i <= s.len(),
            forall|k: int| 0 <= k < i && k + p.len() <= s.len() ==> #[trigger] s@.subrange(k, k + p.len()) != p@,
        decreases s.len() - i,
    {
        if occurs_at(s, p, i) {
            return true;
        }
        i = i + 1;
    }
    occurs_at(s, p, i)
}

/// `c` with `A` to `Z` made lower case, as `char::to_ascii_lowercase` does.
pub open spec fn ascii_lower(c: char) -> char {
    if 'A' <= c <= 'Z' {
        ((c as u32) + 32) as char
    } else {
        c
    }
}

/// `s` with `A` to `Z` made lower case, as `str::to_ascii_lowercase` does.
pub open spec fn ascii_lower_seq(s: Seq<char>) -> Seq<char> {
    s.map_values(|c: char| ascii_lower(c))
}

/// Makes `A` to `Z` lower case.
pub fn to_ascii_lower(s: &Vec<char>) -> (out: Vec<char>)
    ensures
        out@ == ascii_lower_seq(s@),
{
    let mut out: Vec<char> = Vec::new();
    let mut i: usize = 0;
    while i < s.len()
        invariant
            i <= s.len(),
            out@ == ascii_lower_seq(s@.take(i as int)),
        decreases s.len() - i,
    {
        let c = s[i];
        let l = if 'A' <= c && c <= 'Z' {
            ((c as u8) + 32) as char
        } else {
            c
        };
        let ghost before = out@;
        out.push(l);
        assert(out@ =~= ascii_lower_seq(s@.take(i + 1)));
        i = i + 1;
    }
    assert(s@.take(i as int) =~= s@);
    out
}


/// The digit for `d` in a numeral: `0` to `9`, then `A` to `F` or `a` to `f`.
pub open spec fn digit_char(d: nat, upper: bool) -> char {
    if d < 10 {
        (48 + d) as char
    } else if upper {
        (55 + d) as char
    } else {
        (87 + d) as char
    }
}

/// `n` written in base `radix` without leading zeros, as `format!` writes it
/// with `{}` (base 10) or `{:x}` and `{:X}` (base 16).
pub open spec fn radix_digits(n: nat, radix: nat, upper: bool) -> Seq<char>
    decreases n,
{
    if radix < 2 || n < radix {
        seq![digit_char(n, upper)]
    } else {
        proof {
            assert(n / radix < n) by (nonlinear_arith)
                requires
                    radix >= 2,
                    n >= radix,
            ;
        }
        radix_digits(n / radix, radix, upper).push(digit_char(n % radix, upper))
    }
}

/// Reading `a + b` is reading `a`, then going on with `b`.
pub proof fn lemma_scan_concat(a: Seq<char>, b: Seq<char>, acc: int, max: int, radix: int)
    ensures
        scan_digits(a + b, acc, max, radix) == match scan_digits(a, acc, max, radix) {
            Ok(v) => scan_digits(b, v, max, radix),
            Err(k) => Err(k),
        },
    decreases a.len(),
{
    if a.len() == 0 {
        assert(a + b =~= b);
    } else {
        assert((a + b)[0] == a[0]);
        assert((a + b).drop_first() =~= a.drop_first() + b);
        let x = digit_val(a[0], radix);
        if x >= 0 && acc * radix + x <= max {
            lemma_scan_concat(a.drop_first(), b, acc * radix + x, max, radix);
        }
    }
}

/// Every character of a numeral is a digit of its base.
pub proof fn lemma_radix_digits_chars(n: nat, radix: nat, upper: bool)
    requires
        radix == 10 || radix == 16,
    ensures
        radix_digits(n, radix, upper).len() > 0,
        forall|i: int|
            0 <= i < radix_digits(n, radix, upper).len() ==> digit_val(
                #[trigger] radix_digits(n, radix, upper)[i],
                radix as int,
            ) >= 0,
    decreases n,
{
    if n >= radix {
        assert(n / radix < n) by (nonlinear_arith)
            requires
                radix >= 2,
                n >= radix,
        ;
        assert(n % radix < radix) by (nonlinear_arith)
            requires
                radix >= 2,
        ;
        lemma_radix_digits_chars(n / radix, radix, upper);
        let d = radix_digits(n / radix, radix, upper);
        assert forall|i: int| 0 <= i < radix_digits(n, radix, upper).len() implies digit_val(
            #[trigger] radix_digits(n, radix, upper)[i],
            radix as int,
        ) >= 0 by {
            if i < d.len() {
                assert(radix_digits(n, radix, upper)[i] == d[i]);
            }
        }
    }
}

/// Reading a numeral gives back its value, as long as that is at most `max`.
pub proof fn lemma_radix_digits_scan(n: nat, radix: nat, upper: bool, max: int)
    requires
        radix == 10 || radix == 16,
        n <= max,
    ensures
        scan_digits(radix_digits(n, radix, upper), 0, max, radix as int) == Ok::<int, IntErrorKind>(
            n as int,
        ),
    decreases n,
{
    if n < radix {
        let c = digit_char(n, upper);
        assert(digit_val(c, radix as int) == n);
        assert(seq![c].drop_first() =~= Seq::<char>::empty());
        assert(0 * (radix as int) + n == n);
        assert(radix_digits(n, radix, upper) == seq![c]);
        assert(scan_digits(seq![c].drop_first(), n as int, max, radix as int) == Ok::<int, IntErrorKind>(n as int));
    } else {
        let q = n / radix;
        let r = n % radix;
        assert(q < n && r < radix && q * radix + r == n && q >= 0) by (nonlinear_arith)
            requires
                radix >= 2,
                n >= radix,
                q == n / radix,
                r == n % radix,
        ;
        lemma_radix_digits_scan(q, radix, upper, max);
        let c = digit_char(r, upper);
        assert(digit_val(c, radix as int) == r);
        lemma_scan_concat(radix_digits(q, radix, upper), seq![c], 0, max, radix as int);
        assert(seq![c].drop_first() =~= Seq::<char>::empty());
        assert(radix_digits(n, radix, upper) == radix_digits(q, radix, upper) + seq![c]);
        assert((q as int) * (radix as int) + (r as int) == n as int);
        assert(seq![c][0] == c);
        assert(scan_digits(seq![c].drop_first(), n as int, max, radix as int) == Ok::<int, IntErrorKind>(n as int));
        assert(scan_digits(seq![c], q as int, max, radix as int) == Ok::<int, IntErrorKind>(n as int));
    }
}

/// Leading whitespace of `a + b` is that of `a` when `b` starts with
/// something else.
pub proof fn lemma_lead_ws_concat(a: Seq<char>, b: Seq<char>)
    requires
        b.len() > 0,
        !is_ws(b[0]),
    ensures
        lead_ws(a + b) == lead_ws(a),
        lead_ws(a) <= a.len(),
    decreases a.len(),
{
    if a.len() == 0 {
        assert(a + b =~= b);
    } else {
        assert((a + b)[0] == a[0]);
        if is_ws(a[0]) {
            assert((a + b).drop_first() =~= a.drop_first() + b);
            lemma_lead_ws_concat(a.drop_first(), b);
        }
    }
}

/// Trailing whitespace of `a + w`, with `w` all whitespace and `a` ending in
/// something else, is `w`.
pub proof fn lemma_trail_ws_concat(a: Seq<char>, w: Seq<char>)
    requires
        a.len() > 0,
        !is_ws(a.last()),
        forall|i: int| 0 <= i < w.len() ==> is_ws(#[trigger] w[i]),
    ensures
        trail_ws(a + w) == w.len(),
    decreases w.len(),
{
    if w.len() == 0 {
        assert(a + w =~= a);
    } else {
        assert((a + w).last() == w.last());
        assert((a + w).drop_last() =~= a + w.drop_last());
        lemma_trail_ws_concat(a, w.drop_last());
    }
}

/// Trimming `a + w`, with `a` starting and ending in non-whitespace after its
/// leading whitespace and `w` all whitespace.
pub proof fn lemma_trim_concat(a: Seq<char>, b: Seq<char>, w: Seq<char>)
    requires
        b.len() > 0,
        !is_ws(b[0]),
        !is_ws(b.last()),
        forall|i: int| 0 <= i < w.len() ==> is_ws(#[trigger] w[i]),
    ensures
        lead_ws(a) <= a.len(),
        trim(a + b + w) == a.skip(lead_ws(a) as int) + b,
{
    let s = a + b + w;
    assert(s =~= a + (b + w));
    assert((b + w)[0] == b[0]);
    lemma_lead_ws_concat(a, b + w);
    let t = s.skip(lead_ws(s) as int);
    let head = a.skip(lead_ws(a) as int) + b;
    assert(t =~= head + w);
    assert(head.last() == b.last());
    lemma_trail_ws_concat(head, w);
    assert(t.take(t.len() - trail_ws(t)) =~= head);
}


/// A digit is neither whitespace nor one of the signs and separators around
/// numbers in command output.
pub proof fn lemma_digit_class(c: char, radix: int)
    requires
        digit_val(c, radix) >= 0,
    ensures
        !is_ws(c),
        c != '=',
        c != '+',
        c != '-',
        c != 'x',
{
    assert('=' as u32 == 61 && '+' as u32 == 43 && '-' as u32 == 45 && 'x' as u32 == 120);
}


/// Reading digits never goes beyond `max` or below the start value.
pub proof fn lemma_scan_bounds(d: Seq<char>, acc: int, max: int, radix: int)
    requires
        0 <= acc <= max,
        radix == 10 || radix == 16,
    ensures
        scan_digits(d, acc, max, radix) matches Ok(v) ==> acc <= v <= max,
    decreases d.len(),
{
    if d.len() > 0 {
        let x = digit_val(d[0], radix);
        if x >= 0 && acc * radix + x <= max {
            assert(acc * radix + x >= acc) by (nonlinear_arith)
                requires
                    acc >= 0,
                    x >= 0,
                    radix >= 1,
            ;
            lemma_scan_bounds(d.drop_first(), acc * radix + x, max, radix);
        }
    }
}


/// A value read in base 10 or 16 lies within 0 and `max`.
pub proof fn lemma_parse_uint_bound(t: Seq<char>, max: int, radix: int)
    requires
        radix == 10 || radix == 16,
    ensures
        parse_uint(t, max, radix) matches Ok(v) ==> 0 <= v <= max,
{
    if max >= 0 && t.len() > 0 && !(t.len() == 1 && (t[0] == '+' || t[0] == '-')) {
        if t[0] == '+' {
            lemma_scan_bounds(t.drop_first(), 0, max, radix);
        } else {
            lemma_scan_bounds(t, 0, max, radix);
        }
    }
    if max < 0 && t.len() > 0 && !(t.len() == 1 && (t[0] == '+' || t[0] == '-')) {
        lemma_scan_negative_max(if t[0] == '+' { t.drop_first() } else { t }, max, radix);
    }
}

proof fn lemma_scan_negative_max(d: Seq<char>, max: int, radix: int)
    requires
        max < 0,
        radix == 10 || radix == 16,
    ensures
        scan_digits(d, 0, max, radix) is Err || d.len() == 0,
{
    if d.len() > 0 {
        let x = digit_val(d[0], radix);
        assert(0 * radix == 0);
    }
}

} // verus!
