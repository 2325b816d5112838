//! Text as sequences of characters: the vocabulary in which the contracts of
//! this crate speak of strings, and the string functions the crate is built on.
use vstd::prelude::*;
use vstd::utf8::*;

verus! {

/// `String::push` of the standard library appends one character.
pub assume_specification[ String::push ](s: &mut String, c: char)
    ensures
        final(s)@ == old(s)@.push(c),
;

/// The characters that Unicode gives the `White_Space` property.
pub open spec fn is_space(c: char) -> bool {
    let n = c as u32;
    ||| 0x9 <= n <= 0xd
    ||| n == 0x20
    ||| n == 0x85
    ||| n == 0xa0
    ||| n == 0x1680
    ||| 0x2000 <= n <= 0x200a
    ||| n == 0x2028
    ||| n == 0x2029
    ||| n == 0x202f
    ||| n == 0x205f
    ||| n == 0x3000
}

/// `c` with an ASCII lower-case letter made upper case.
pub open spec fn upper_char(c: char) -> char {
    if 'a' <= c <= 'z' {
        ((c as u32) - 32) as char
    } else {
        c
    }
}

/// `c` with an ASCII upper-case letter made lower case.
pub open spec fn lower_char(c: char) -> char {
    if 'A' <= c <= 'Z' {
        ((c as u32) + 32) as char
    } else {
        c
    }
}

pub fn space_char(c: char) -> (r: bool)
    ensures
        r == is_space(c),
{
    let n: u32 = c as u32;
    (0x9 <= n && n <= 0xd) || n == 0x20 || n == 0x85 || n == 0xa0 || n == 0x1680 || (0x2000 <= n && n
        <= 0x200a) || n == 0x2028 || n == 0x2029 || n == 0x202f || n == 0x205f || n == 0x3000
}

pub fn char_to_upper(c: char) -> (r: char)
    ensures
        r == upper_char(c),
{
    if 'a' <= c && c <= 'z' {
        ((c as u8) - 32) as char
    } else {
        c
    }
}

pub fn char_to_lower(c: char) -> (r: char)
    ensures
        r == lower_char(c),
{
    if 'A' <= c && c <= 'Z' {
        ((c as u8) + 32) as char
    } else {
        c
    }
}

/// The characters of a string, in order.
pub fn chars_of(s: &str) -> (r: Vec<char>)
    ensures
        r@ == s@,
{
    let mut out: Vec<char> = Vec::new();
    for c in it: s.chars()
        invariant
            out@ == it.seq().take(it.index()),
            it.seq() == s@,
    {
        out.push(c);
    }
    out
}

/// The string made of the given characters.
pub fn text_of(v: &[char]) -> (r: String)
    ensures
        r@ == v@,
{
    let mut out: String = String::new();
    let mut i: usize = 0;
    while i < v.len()
        invariant
            i <= v@.len(),
            out@ == v@.take(i as int),
        decreases v@.len() - i,
    {
        out.push(v[i]);
        i += 1;
    }
    out
}

/// Whether two strings hold the same characters.
pub fn same(a: &str, b: &str) -> (r: bool)
    ensures
        r == (a@ == b@),
{
    a.to_owned() == b.to_owned()
}

/// The views of a sequence of strings.
pub open spec fn views(v: Seq<String>) -> Seq<Seq<char>> {
    Seq::new(v.len(), |i: int| v[i]@)
}

/// `s` without its leading white space.
pub open spec fn trim_start_of(s: Seq<char>) -> Seq<char>
    decreases s.len(),
{
    if s.len() > 0 && is_space(s[0]) {
        trim_start_of(s.skip(1))
    } else {
        s
    }
}

/// `s` without its trailing white space.
pub open spec fn trim_end_of(s: Seq<char>) -> Seq<char>
    decreases s.len(),
{
    if s.len() > 0 && is_space(s.last()) {
        trim_end_of(s.drop_last())
    } else {
        s
    }
}

/// `s` without its leading and trailing white space.
pub open spec fn trim_of(s: Seq<char>) -> Seq<char> {
    trim_end_of(trim_start_of(s))
}

/// `s` in ASCII upper case.
pub open spec fn upper_of(s: Seq<char>) -> Seq<char> {
    Seq::new(s.len(), |i: int| upper_char(s[i]))
}

/// `s` in ASCII lower case.
pub open spec fn lower_of(s: Seq<char>) -> Seq<char> {
    Seq::new(s.len(), |i: int| lower_char(s[i]))
}

/// `s` without the occurrences of `c` at its end.
pub open spec fn strip_end_of(s: Seq<char>, c: char) -> Seq<char>
    decreases s.len(),
{
    if s.len() > 0 && s.last() == c {
        strip_end_of(s.drop_last(), c)
    } else {
        s
    }
}

/// `s` without the occurrences of `c` at its start.
pub open spec fn strip_start_of(s: Seq<char>, c: char) -> Seq<char>
    decreases s.len(),
{
    if s.len() > 0 && s[0] == c {
        strip_start_of(s.skip(1), c)
    } else {
        s
    }
}

/// The parts of `s` between the occurrences of `c`; always one at least.
pub open spec fn split_of(s: Seq<char>, c: char) -> Seq<Seq<char>>
    decreases s.len(),
{
    if s.len() == 0 {
        seq![Seq::empty()]
    } else {
        let p = split_of(s.drop_last(), c);
        if s.last() == c {
            p.push(Seq::empty())
        } else {
            p.update(p.len() - 1, p.last().push(s.last()))
        }
    }
}

/// The place of the first `c` in `s`, or the length of `s` where there is none.
pub open spec fn first_of(s: Seq<char>, c: char) -> int
    decreases s.len(),
{
    if s.len() == 0 || s[0] == c {
        0
    } else {
        1 + first_of(s.skip(1), c)
    }
}

/// The place of the last `c` in `s`, or -1 where there is none.
pub open spec fn last_of(s: Seq<char>, c: char) -> int
    decreases s.len(),
{
    if s.len() == 0 {
        -1
    } else if s.last() == c {
        s.len() - 1
    } else {
        last_of(s.drop_last(), c)
    }
}

/// What stands before and after the first `c` of `s`.
pub open spec fn split_once_of(s: Seq<char>, c: char) -> Option<(Seq<char>, Seq<char>)> {
    let i = first_of(s, c);
    if i < s.len() {
        Some((s.take(i), s.skip(i + 1)))
    } else {
        None
    }
}

/// Whether `s` begins with `p`.
pub open spec fn starts(s: Seq<char>, p: Seq<char>) -> bool {
    p.len() <= s.len() && s.take(p.len() as int) == p
}

/// Whether `s` ends with `p`.
pub open spec fn ends(s: Seq<char>, p: Seq<char>) -> bool {
    p.len() <= s.len() && s.skip(s.len() - p.len()) == p
}

/// Whether `p` stands in `s` at place `i`.
pub open spec fn stands_at(s: Seq<char>, p: Seq<char>, i: int) -> bool {
    0 <= i <= s.len() - p.len() && s.subrange(i, i + p.len()) == p
}

/// Whether `p` stands somewhere in `s`.
pub open spec fn holds(s: Seq<char>, p: Seq<char>) -> bool {
    exists|i: int| stands_at(s, p, i)
}

/// The lines of `s`: the parts between line feeds, each without one carriage
/// return at its end, and without the empty part after a final line feed.
pub open spec fn lines_of(s: Seq<char>) -> Seq<Seq<char>> {
    let p = split_of(s, '\n');
    let q = if p.last().len() == 0 {
        p.drop_last()
    } else {
        p
    };
    Seq::new(q.len(), |i: int| without_cr(q[i], i + 1 < p.len()))
}

/// A line without the carriage return that stood before its line feed.
pub open spec fn without_cr(s: Seq<char>, ended: bool) -> Seq<char> {
    if ended && s.len() > 0 && s.last() == '\r' {
        s.drop_last()
    } else {
        s
    }
}

/// The parts joined, with `sep` between two neighbours.
pub open spec fn join_of(parts: Seq<Seq<char>>, sep: Seq<char>) -> Seq<char>
    decreases parts.len(),
{
    if parts.len() == 0 {
        Seq::empty()
    } else if parts.len() == 1 {
        parts[0]
    } else {
        join_of(parts.drop_last(), sep) + sep + parts.last()
    }
}

/// The digit `d` as a character.
pub open spec fn digit_char(d: int) -> char {
    (d + 48) as char
}

/// `n` in decimal digits, without leading zeros.
pub open spec fn decimal_of(n: nat) -> Seq<char>
    decreases n,
{
    if n < 10 {
        seq![digit_char(n as int)]
    } else {
        decimal_of(n / 10).push(digit_char((n % 10) as int))
    }
}

/// `n` in decimal digits, with leading zeros up to the given width.
pub open spec fn padded_of(n: nat, width: nat) -> Seq<char> {
    let d = decimal_of(n);
    if d.len() < width {
        Seq::new((width - d.len()) as nat, |i: int| '0') + d
    } else {
        d
    }
}

/// A whole number in decimal, with a sign where it is negative.
pub open spec fn signed_decimal_of(n: int) -> Seq<char> {
    if n < 0 {
        seq!['-'] + decimal_of((-n) as nat)
    } else {
        decimal_of(n as nat)
    }
}

/// Whether every character of `s` is an ASCII digit.
pub open spec fn all_digits(s: Seq<char>) -> bool {
    forall|i: int| 0 <= i < s.len() ==> '0' <= #[trigger] s[i] <= '9'
}

/// The number that a sequence of digits denotes.
pub open spec fn number_of(s: Seq<char>) -> nat
    decreases s.len(),
{
    if s.len() == 0 {
        0
    } else {
        (number_of(s.drop_last()) * 10 + (s.last() as int - 48)) as nat
    }
}

/// `s` without one leading plus sign.
pub open spec fn unsigned_part(s: Seq<char>) -> Seq<char> {
    if s.len() > 0 && s[0] == '+' {
        s.skip(1)
    } else {
        s
    }
}

/// The number that `s` denotes where it is an optional plus sign and digits, and
/// is not above `max`.
pub open spec fn parse_of(s: Seq<char>, max: nat) -> Option<nat> {
    let d = unsigned_part(s);
    if d.len() > 0 && all_digits(d) && number_of(d) <= max {
        Some(number_of(d))
    } else {
        None
    }
}

/// The number that `s` denotes where it is an optional sign and digits and lies
/// in the range of `i64`.
pub open spec fn parse_i64_of(s: Seq<char>) -> Option<int> {
    if s.len() > 0 && s[0] == '-' {
        let d = s.skip(1);
        if d.len() > 0 && all_digits(d) && number_of(d) <= 0x8000_0000_0000_0000nat {
            Some(-(number_of(d) as int))
        } else {
            None
        }
    } else {
        match parse_of(s, i64::MAX as nat) {
            Some(n) => Some(n as int),
            None => None,
        }
    }
}

/// The string made of the characters of `v` from `from` up to `to`.
pub fn sub_text(v: &Vec<char>, from: usize, to: usize) -> (r: String)
    requires
        from <= to <= v@.len(),
    ensures
        r@ == v@.subrange(from as int, to as int),
{
    let mut out: String = String::new();
    let mut i: usize = from;
    while i < to
        invariant
            from <= i <= to <= v@.len(),
            out@ == v@.subrange(from as int, i as int),
        decreases to - i,
    {
        out.push(v[i]);
        i += 1;
    }
    out
}

/// The string without its leading and trailing white space.
pub fn trim(s: &str) -> (r: String)
    ensures
        r@ == trim_of(s@),
{
    let v = chars_of(s);
    let mut i: usize = 0;
    assert(s@.skip(0) =~= s@);
    while i < v.len() && space_char(v[i])
        invariant
            v@ == s@,
            i <= v@.len(),
            trim_start_of(s@) == trim_start_of(s@.skip(i as int)),
        decreases v@.len() - i,
    {
        assert(s@.skip(i as int).skip(1) =~= s@.skip(i + 1));
        i += 1;
    }
    let ghost t = s@.skip(i as int);
    assert(trim_start_of(s@) == t);
    let mut j: usize = v.len();
    assert(t.take(t.len() as int) =~= t);
    while j > i && space_char(v[j - 1])
        invariant
            v@ == s@,
            i <= j <= v@.len(),
            t == s@.skip(i as int),
            trim_end_of(t) == trim_end_of(t.take(j - i)),
        decreases j,
    {
        assert(t.take(j - i).drop_last() =~= t.take(j - i - 1));
        j -= 1;
    }
    assert(s@.subrange(i as int, j as int) =~= t.take(j - i));
    sub_text(&v, i, j)
}

/// The string in ASCII upper case.
pub fn upper(s: &str) -> (r: String)
    ensures
        r@ == upper_of(s@),
{
    let v = chars_of(s);
    let mut out: String = String::new();
    let mut i: usize = 0;
    while i < v.len()
        invariant
            i <= v@.len(),
            out@ == upper_of(v@.take(i as int)),
        decreases v@.len() - i,
    {
        out.push(char_to_upper(v[i]));
        i += 1;
        assert(out@ =~= upper_of(v@.take(i as int)));
    }
    assert(v@.take(v@.len() as int) =~= s@);
    out
}

/// The string in ASCII lower case.
pub fn lower(s: &str) -> (r: String)
    ensures
        r@ == lower_of(s@),
{
    let v = chars_of(s);
    let mut out: String = String::new();
    let mut i: usize = 0;
    while i < v.len()
        invariant
            i <= v@.len(),
            out@ == lower_of(v@.take(i as int)),
        decreases v@.len() - i,
    {
        out.push(char_to_lower(v[i]));
        i += 1;
        assert(out@ =~= lower_of(v@.take(i as int)));
    }
    assert(v@.take(v@.len() as int) =~= s@);
    out
}

/// Whether two strings are the same but for the case of ASCII letters.
pub fn same_ignoring_case(a: &str, b: &str) -> (r: bool)
    ensures
        r == (lower_of(a@) == lower_of(b@)),
{
    same(lower(a).as_str(), lower(b).as_str())
}

/// The string without the occurrences of `c` at its end.
pub fn strip_end(s: &str, c: char) -> (r: String)
    ensures
        r@ == strip_end_of(s@, c),
{
    let v = chars_of(s);
    let mut j: usize = v.len();
    assert(s@.take(s@.len() as int) =~= s@);
    while j > 0 && v[j - 1] == c
        invariant
            v@ == s@,
            j <= v@.len(),
            strip_end_of(s@, c) == strip_end_of(s@.take(j as int), c),
        decreases j,
    {
        assert(s@.take(j as int).drop_last() =~= s@.take(j - 1));
        j -= 1;
    }
    assert(s@.subrange(0, j as int) =~= s@.take(j as int));
    sub_text(&v, 0, j)
}

/// The string without the occurrences of `c` at its start.
pub fn strip_start(s: &str, c: char) -> (r: String)
    ensures
        r@ == strip_start_of(s@, c),
{
    let v = chars_of(s);
    let mut i: usize = 0;
    assert(s@.skip(0) =~= s@);
    while i < v.len() && v[i] == c
        invariant
            v@ == s@,
            i <= v@.len(),
            strip_start_of(s@, c) == strip_start_of(s@.skip(i as int), c),
        decreases v@.len() - i,
    {
        assert(s@.skip(i as int).skip(1) =~= s@.skip(i + 1));
        i += 1;
    }
    assert(s@.subrange(i as int, s@.len() as int) =~= s@.skip(i as int));
    sub_text(&v, i, v.len())
}

/// The parts of `s` between the occurrences of `c`.
pub fn split(s: &str, c: char) -> (r: Vec<String>)
    ensures
        views(r@) == split_of(s@, c),
{
    let v = chars_of(s);
    let mut done: Vec<String> = Vec::new();
    let mut part: String = String::new();
    let mut i: usize = 0;
    assert(views(done@).push(part@) =~= split_of(s@.take(0), c));
    while i < v.len()
        invariant
            v@ == s@,
            i <= v@.len(),
            views(done@).push(part@) == split_of(s@.take(i as int), c),
        decreases v@.len() - i,
    {
        let ghost before = split_of(s@.take(i as int), c);
        let ghost old_done = views(done@);
        assert(s@.take(i + 1).drop_last() =~= s@.take(i as int));
        if v[i] == c {
            done.push(part);
            part = String::new();
            assert(views(done@) =~= before);
            assert(views(done@).push(part@) =~= before.push(Seq::empty()));
        } else {
            part.push(v[i]);
            assert(views(done@).push(part@) =~= before.update(
                before.len() - 1,
                before.last().push(v@[i as int]),
            ));
        }
        i += 1;
    }
    assert(s@.take(v@.len() as int) =~= s@);
    let ghost old_done = views(done@);
    let ghost last = part@;
    done.push(part);
    assert(views(done@) =~= old_done.push(last));
    done
}

/// The place of the first `c` in `v` is where the scan for it stops.
proof fn first_of_is(s: Seq<char>, c: char, i: int)
    requires
        0 <= i <= s.len(),
        forall|k: int| 0 <= k < i ==> s[k] != c,
        i < s.len() ==> s[i] == c,
    ensures
        first_of(s, c) == i,
    decreases s.len(),
{
    if s.len() > 0 && s[0] != c {
        first_of_is(s.skip(1), c, i - 1);
    }
}

/// `first_of` lies in the text, and `c` stands there and nowhere before.
pub proof fn first_of_bounds(s: Seq<char>, c: char)
    ensures
        0 <= first_of(s, c) <= s.len(),
        first_of(s, c) < s.len() ==> s[first_of(s, c)] == c,
        forall|k: int| 0 <= k < first_of(s, c) ==> s[k] != c,
    decreases s.len(),
{
    if s.len() > 0 && s[0] != c {
        first_of_bounds(s.skip(1), c);
        assert forall|k: int| 0 <= k < first_of(s, c) implies s[k] != c by {
            if k > 0 {
                assert(s.skip(1)[k - 1] != c);
            }
        }
    }
}

/// The place of the first `c` in `v`, or the length of `v`.
pub fn find_char(v: &Vec<char>, c: char) -> (r: usize)
    ensures
        r == first_of(v@, c),
        r <= v@.len(),
{
    let mut i: usize = 0;
    while i < v.len() && v[i] != c
        invariant
            i <= v@.len(),
            forall|k: int| 0 <= k < i ==> v@[k] != c,
        decreases v@.len() - i,
    {
        i += 1;
    }
    proof {
        first_of_is(v@, c, i as int);
    }
    i
}

/// What stands before and after the first `c` of `s`.
pub fn split_once(s: &str, c: char) -> (r: Option<(String, String)>)
    ensures
        match r {
            Some(p) => split_once_of(s@, c) == Some((p.0@, p.1@)),
            None => split_once_of(s@, c) is None,
        },
{
    let v = chars_of(s);
    let i = find_char(&v, c);
    if i < v.len() {
        assert(s@.subrange(0, i as int) =~= s@.take(i as int));
        assert(s@.subrange(i + 1, s@.len() as int) =~= s@.skip(i + 1));
        Some((sub_text(&v, 0, i), sub_text(&v, i + 1, v.len())))
    } else {
        None
    }
}

/// What stands before and after the last `c` of `s`.
pub open spec fn rsplit_once_of(s: Seq<char>, c: char) -> Option<(Seq<char>, Seq<char>)> {
    let i = last_of(s, c);
    if i >= 0 {
        Some((s.take(i), s.skip(i + 1)))
    } else {
        None
    }
}

pub fn rsplit_once(s: &str, c: char) -> (r: Option<(String, String)>)
    ensures
        match r {
            Some(p) => rsplit_once_of(s@, c) == Some((p.0@, p.1@)),
            None => rsplit_once_of(s@, c) is None,
        },
{
    let v = chars_of(s);
    let mut j: usize = v.len();
    assert(s@.take(s@.len() as int) =~= s@);
    while j > 0 && v[j - 1] != c
        invariant
            v@ == s@,
            j <= v@.len(),
            last_of(s@, c) == last_of(s@.take(j as int), c),
        decreases j,
    {
        assert(s@.take(j as int).drop_last() =~= s@.take(j - 1));
        j -= 1;
    }
    if j > 0 {
        assert(s@.subrange(0, j - 1) =~= s@.take(j - 1));
        assert(s@.subrange(j as int, s@.len() as int) =~= s@.skip(j as int));
        Some((sub_text(&v, 0, j - 1), sub_text(&v, j, v.len())))
    } else {
        None
    }
}

fn stands_at_place(v: &Vec<char>, p: &Vec<char>, at: usize) -> (r: bool)
    requires
        at + p@.len() <= v@.len(),
    ensures
        r == stands_at(v@, p@, at as int),
{
    let mut i: usize = 0;
    while i < p.len()
        invariant
            i <= p@.len(),
            at + p@.len() <= v.len(),
            forall|k: int| 0 <= k < i ==> v@[at + k] == p@[k],
        decreases p@.len() - i,
    {
        if v[at + i] != p[i] {
            assert(v@.subrange(at as int, at + p@.len())[i as int] != p@[i as int]);
            return false;
        }
        i += 1;
    }
    assert(v@.subrange(at as int, at + p@.len()) =~= p@);
    true
}

/// Whether `s` begins with `p`.
pub fn starts_with(s: &str, p: &str) -> (r: bool)
    ensures
        r == starts(s@, p@),
{
    let v = chars_of(s);
    let w = chars_of(p);
    assert(p@.len() <= s@.len() ==> s@.take(p@.len() as int) =~= s@.subrange(0, p@.len() as int));
    w.len() <= v.len() && stands_at_place(&v, &w, 0)
}

/// Whether `s` ends with `p`.
pub fn ends_with(s: &str, p: &str) -> (r: bool)
    ensures
        r == ends(s@, p@),
{
    let v = chars_of(s);
    let w = chars_of(p);
    assert(p@.len() <= s@.len() ==> s@.skip(s@.len() - p@.len()) =~= s@.subrange(
        s@.len() - p@.len(),
        s@.len() - p@.len() + p@.len(),
    ));
    w.len() <= v.len() && stands_at_place(&v, &w, v.len() - w.len())
}

/// The first place at which `p` stands in `s` from place `from` on.
pub fn find_text(v: &Vec<char>, p: &Vec<char>, from: usize) -> (r: Option<usize>)
    ensures
        match r {
            Some(i) => from <= i && stands_at(v@, p@, i as int) && forall|k: int|
                from <= k < i ==> !stands_at(v@, p@, k),
            None => forall|k: int| from <= k ==> !stands_at(v@, p@, k),
        },
{
    let mut i: usize = from;
    while i <= v.len() && p.len() <= v.len() - i
        invariant
            from <= i,
            forall|k: int| from <= k < i ==> !stands_at(v@, p@, k),
        decreases v@.len() + 1 - i,
    {
        if stands_at_place(v, p, i) {
            return Some(i);
        }
        if i == v.len() {
            return None;
        }
        i += 1;
    }
    None
}

/// Whether `p` stands somewhere in `s`.
pub fn contains(s: &str, p: &str) -> (r: bool)
    ensures
        r == holds(s@, p@),
{
    let v = chars_of(s);
    let w = chars_of(p);
    find_text(&v, &w, 0).is_some()
}

/// The lines of `s`.
pub fn lines(s: &str) -> (r: Vec<String>)
    ensures
        views(r@) == lines_of(s@),
{
    let parts = split(s, '\n');
    let n: usize = parts.len();
    proof {
        split_of_nonempty(s@, '\n');
    }
    let ghost p = split_of(s@, '\n');
    assert(views(parts@).len() == n);
    let last_empty = parts[n - 1].as_str().is_empty();
    assert(p.last() == parts@[n - 1]@);
    let m: usize = if last_empty {
        n - 1
    } else {
        n
    };
    let mut out: Vec<String> = Vec::new();
    let mut i: usize = 0;
    while i < m
        invariant
            i <= m <= n,
            n == parts@.len(),
            p == views(parts@),
            out@.len() == i,
            forall|k: int| 0 <= k < i ==> out@[k]@ == without_cr(p[k], k + 1 < n),
        decreases m - i,
    {
        let v = chars_of(parts[i].as_str());
        assert(p[i as int] == v@);
        if i + 1 < n && v.len() > 0 && v[v.len() - 1] == '\r' {
            assert(v@.subrange(0, v@.len() - 1) =~= v@.drop_last());
            out.push(sub_text(&v, 0, v.len() - 1));
        } else {
            assert(v@.subrange(0, v@.len() as int) =~= v@);
            out.push(sub_text(&v, 0, v.len()));
        }
        i += 1;
    }
    assert(views(out@) =~= lines_of(s@));
    out
}

/// A text splits into one part at least.
pub proof fn split_of_nonempty(s: Seq<char>, c: char)
    ensures
        split_of(s, c).len() >= 1,
    decreases s.len(),
{
    if s.len() > 0 {
        split_of_nonempty(s.drop_last(), c);
    }
}

/// The parts joined, with `sep` between two neighbours.
pub fn join(parts: &Vec<String>, sep: &str) -> (r: String)
    ensures
        r@ == join_of(views(parts@), sep@),
{
    let mut out: String = String::new();
    let mut i: usize = 0;
    let ghost p = views(parts@);
    assert(join_of(p.take(0), sep@) =~= out@);
    while i < parts.len()
        invariant
            p == views(parts@),
            i <= parts@.len(),
            out@ == join_of(p.take(i as int), sep@),
        decreases parts@.len() - i,
    {
        assert(p.take(i + 1).drop_last() =~= p.take(i as int));
        if i > 0 {
            out.append(sep);
        }
        let ghost so_far = out@;
        out.append(parts[i].as_str());
        assert(i == 0 ==> out@ =~= p[0]);
        i += 1;
    }
    assert(p.take(p.len() as int) =~= p);
    out
}

/// Appends the decimal digits of `n`.
pub fn push_decimal(out: &mut String, n: u64)
    ensures
        final(out)@ == old(out)@ + decimal_of(n as nat),
    decreases n,
{
    if n >= 10 {
        push_decimal(out, n / 10);
    }
    let d: u8 = (n % 10) as u8;
    out.push((d + 48) as char);
    assert(out@ =~= old(out)@ + decimal_of(n as nat));
}

/// `n` in decimal digits.
pub fn decimal(n: u64) -> (r: String)
    ensures
        r@ == decimal_of(n as nat),
{
    let mut out: String = String::new();
    push_decimal(&mut out, n);
    assert(out@ =~= decimal_of(n as nat));
    out
}

/// A whole number in decimal, with a sign where it is negative.
pub fn signed_decimal(n: i64) -> (r: String)
    ensures
        r@ == signed_decimal_of(n as int),
{
    let mut out: String = String::new();
    if n < 0 {
        out.push('-');
        let m: u64 = if n == i64::MIN {
            0x8000_0000_0000_0000
        } else {
            (-n) as u64
        };
        push_decimal(&mut out, m);
        assert(out@ =~= seq!['-'] + decimal_of((-n) as nat));
    } else {
        push_decimal(&mut out, n as u64);
        assert(out@ =~= decimal_of(n as nat));
    }
    out
}

/// `n` in decimal digits, with leading zeros up to the given width.
pub fn padded(n: u64, width: usize) -> (r: String)
    ensures
        r@ == padded_of(n as nat, width as nat),
{
    let d = decimal(n);
    let v = chars_of(d.as_str());
    let mut out: String = String::new();
    if v.len() < width {
        let k: usize = width - v.len();
        let mut i: usize = 0;
        while i < k
            invariant
                i <= k,
                out@ == Seq::new(i as nat, |j: int| '0'),
            decreases k - i,
        {
            out.push('0');
            i += 1;
            assert(out@ =~= Seq::new(i as nat, |j: int| '0'));
        }
        out.append(d.as_str());
        out
    } else {
        d
    }
}

/// The value of a sequence of digits grows with every digit.
proof fn number_of_grows(s: Seq<char>, i: int)
    requires
        0 <= i <= s.len(),
        all_digits(s),
    ensures
        number_of(s.take(i)) <= number_of(s),
    decreases s.len() - i,
{
    if i < s.len() {
        number_of_grows(s, i + 1);
        assert(s.take(i + 1).drop_last() =~= s.take(i));
        let d = s[i];
        assert(number_of(s.take(i)) <= number_of(s.take(i)) * 10 + (d as int - 48)) by (nonlinear_arith)
            requires
                d as int >= 48,
        ;
    } else {
        assert(s.take(i) =~= s);
    }
}

/// The value of the digits of `v` from place `from` on, where they are digits, one
/// at least, and their value is not above `max`.
fn digits_value(v: &Vec<char>, from: usize, max: u64) -> (r: Option<u64>)
    requires
        from <= v@.len(),
    ensures
        ({
            let d = v@.skip(from as int);
            match r {
                Some(n) => d.len() > 0 && all_digits(d) && number_of(d) == n && n <= max,
                None => !(d.len() > 0 && all_digits(d) && number_of(d) <= max),
            }
        }),
{
    let ghost d = v@.skip(from as int);
    if from == v.len() {
        return None;
    }
    let mut i: usize = from;
    let mut n: u64 = 0;
    while i < v.len()
        invariant
            from <= i <= v@.len(),
            d == v@.skip(from as int),
            all_digits(d.take(i - from)),
            n == number_of(d.take(i - from)),
            n <= max,
        decreases v@.len() - i,
    {
        let c = v[i];
        assert(d[i - from] == c);
        if c < '0' || c > '9' {
            return None;
        }
        let k: u64 = c as u64 - 48;
        assert(d.take(i - from + 1).drop_last() =~= d.take(i - from));
        assert(d.take(i - from + 1).last() == c);
        assert(number_of(d.take(i - from + 1)) == n * 10 + k);
        if n > max / 10 || max < k || n * 10 > max - k {
            proof {
                if all_digits(d) {
                    number_of_grows(d, i - from + 1);
                }
            }
            return None;
        }
        n = n * 10 + k;
        i += 1;
    }
    assert(d.take(v@.len() - from) =~= d);
    Some(n)
}

/// The number that `s` denotes where it is an optional plus sign and digits, and
/// is not above `max`.
pub fn parse_up_to(s: &str, max: u64) -> (r: Option<u64>)
    ensures
        match r {
            Some(n) => parse_of(s@, max as nat) == Some(n as nat),
            None => parse_of(s@, max as nat) is None,
        },
{
    let v = chars_of(s);
    let from: usize = if v.len() > 0 && v[0] == '+' {
        1
    } else {
        0
    };
    assert(unsigned_part(s@) =~= v@.skip(from as int));
    digits_value(&v, from, max)
}

/// The number that `s` denotes where it is an optional sign and digits and lies
/// in the range of `i64`.
pub fn parse_i64(s: &str) -> (r: Option<i64>)
    ensures
        match r {
            Some(n) => parse_i64_of(s@) == Some(n as int),
            None => parse_i64_of(s@) is None,
        },
{
    let v = chars_of(s);
    if v.len() > 0 && v[0] == '-' {
        match digits_value(&v, 1, 0x8000_0000_0000_0000) {
            Some(n) => if n == 0x8000_0000_0000_0000 {
                Some(i64::MIN)
            } else {
                Some(-(n as i64))
            },
            None => None,
        }
    } else {
        match parse_up_to(s, i64::MAX as u64) {
            Some(n) => Some(n as i64),
            None => None,
        }
    }
}

/// Why a text does not denote a number up to a limit: the first character that is
/// no digit or takes the number past the limit decides.
pub open spec fn digits_fault_of(d: Seq<char>, max: nat, n: nat) -> Seq<char>
    decreases d.len(),
{
    if d.len() == 0 {
        "invalid digit found in string"@
    } else if !('0' <= d[0] <= '9') {
        "invalid digit found in string"@
    } else {
        let m = (n * 10 + (d[0] as int - 48)) as nat;
        if m > max {
            "number too large to fit in target type"@
        } else {
            digits_fault_of(d.skip(1), max, m)
        }
    }
}

/// Why a text does not denote a whole number up to `max`.
pub open spec fn number_fault_of(s: Seq<char>, max: nat) -> Seq<char> {
    if s.len() == 0 {
        "cannot parse integer from empty string"@
    } else {
        digits_fault_of(unsigned_part(s), max, 0)
    }
}

/// Why the digits of `v` from place `from` on do not denote a number up to `max`.
fn digits_fault(v: &Vec<char>, from: usize, max: u64) -> (r: String)
    requires
        from <= v@.len(),
    ensures
        r@ == digits_fault_of(v@.skip(from as int), max as nat, 0),
{
    let ghost all = v@.skip(from as int);
    let mut i: usize = from;
    let mut n: u64 = 0;
    while i < v.len()
        invariant
            from <= i <= v@.len(),
            all == v@.skip(from as int),
            digits_fault_of(all, max as nat, 0) == digits_fault_of(
                v@.skip(i as int),
                max as nat,
                n as nat,
            ),
            n <= max,
        decreases v@.len() - i,
    {
        let c = v[i];
        let ghost d = v@.skip(i as int);
        assert(d[0] == c);
        assert(d.skip(1) =~= v@.skip(i + 1));
        if c < '0' || c > '9' {
            return "invalid digit found in string".to_owned();
        }
        let k: u64 = c as u64 - 48;
        if n > max / 10 || max < k || n * 10 > max - k {
            return "number too large to fit in target type".to_owned();
        }
        n = n * 10 + k;
        i += 1;
    }
    "invalid digit found in string".to_owned()
}

/// Why a text does not denote a whole number up to `max`.
pub fn number_fault(s: &str, max: u64) -> (r: String)
    ensures
        r@ == number_fault_of(s@, max as nat),
{
    let v = chars_of(s);
    if v.len() == 0 {
        return "cannot parse integer from empty string".to_owned();
    }
    let from: usize = if v[0] == '+' {
        1
    } else {
        0
    };
    assert(unsigned_part(s@) =~= v@.skip(from as int));
    digits_fault(&v, from, max)
}

/// Why a text does not denote a whole number in the range of `i64`.
pub open spec fn i64_fault_of(s: Seq<char>) -> Seq<char> {
    if s.len() > 0 && s[0] == '-' {
        let fault = digits_fault_of(s.skip(1), 0x8000_0000_0000_0000, 0);
        if fault == "number too large to fit in target type"@ {
            "number too small to fit in target type"@
        } else {
            fault
        }
    } else {
        number_fault_of(s, i64::MAX as nat)
    }
}

/// Why a text does not denote a whole number in the range of `i64`.
pub fn i64_fault(s: &str) -> (r: String)
    ensures
        r@ == i64_fault_of(s@),
{
    let v = chars_of(s);
    if v.len() > 0 && v[0] == '-' {
        let fault = digits_fault(&v, 1, 0x8000_0000_0000_0000);
        if same(fault.as_str(), "number too large to fit in target type") {
            "number too small to fit in target type".to_owned()
        } else {
            fault
        }
    } else {
        number_fault(s, i64::MAX as u64)
    }
}

/// The string without its leading white space.
pub fn trim_start(s: &str) -> (r: String)
    ensures
        r@ == trim_start_of(s@),
{
    let v = chars_of(s);
    let mut i: usize = 0;
    assert(s@.skip(0) =~= s@);
    while i < v.len() && space_char(v[i])
        invariant
            v@ == s@,
            i <= v@.len(),
            trim_start_of(s@) == trim_start_of(s@.skip(i as int)),
        decreases v@.len() - i,
    {
        assert(s@.skip(i as int).skip(1) =~= s@.skip(i + 1));
        i += 1;
    }
    assert(s@.subrange(i as int, s@.len() as int) =~= s@.skip(i as int));
    sub_text(&v, i, v.len())
}

/// The string without its trailing white space.
pub fn trim_end(s: &str) -> (r: String)
    ensures
        r@ == trim_end_of(s@),
{
    let v = chars_of(s);
    let mut j: usize = v.len();
    assert(s@.take(s@.len() as int) =~= s@);
    while j > 0 && space_char(v[j - 1])
        invariant
            v@ == s@,
            j <= v@.len(),
            trim_end_of(s@) == trim_end_of(s@.take(j as int)),
        decreases j,
    {
        assert(s@.take(j as int).drop_last() =~= s@.take(j - 1));
        j -= 1;
    }
    assert(s@.subrange(0, j as int) =~= s@.take(j as int));
    sub_text(&v, 0, j)
}

/// The words of `s`, the last of which may still be empty: what white space separates.
pub open spec fn words_so_far(s: Seq<char>) -> Seq<Seq<char>>
    decreases s.len(),
{
    if s.len() == 0 {
        seq![Seq::empty()]
    } else {
        let p = words_so_far(s.drop_last());
        if !is_space(s.last()) {
            p.update(p.len() - 1, p.last().push(s.last()))
        } else if p.last().len() > 0 {
            p.push(Seq::empty())
        } else {
            p
        }
    }
}

/// The words of `s`: what white space separates.
pub open spec fn words_of(s: Seq<char>) -> Seq<Seq<char>> {
    let p = words_so_far(s);
    if p.last().len() > 0 {
        p
    } else {
        p.drop_last()
    }
}

/// The words of `s`: what white space separates.
pub fn words(s: &str) -> (r: Vec<String>)
    ensures
        views(r@) == words_of(s@),
{
    let v = chars_of(s);
    let mut done: Vec<String> = Vec::new();
    let mut part: String = String::new();
    let mut i: usize = 0;
    assert(views(done@).push(part@) =~= words_so_far(s@.take(0)));
    while i < v.len()
        invariant
            v@ == s@,
            i <= v@.len(),
            views(done@).push(part@) == words_so_far(s@.take(i as int)),
        decreases v@.len() - i,
    {
        let ghost before = words_so_far(s@.take(i as int));
        assert(before.last() == part@);
        assert(s@.take(i + 1).drop_last() =~= s@.take(i as int));
        if !space_char(v[i]) {
            part.push(v[i]);
            assert(views(done@).push(part@) =~= before.update(
                before.len() - 1,
                before.last().push(v@[i as int]),
            ));
        } else if !part.as_str().is_empty() {
            done.push(part);
            part = String::new();
            assert(views(done@) =~= before);
            assert(views(done@).push(part@) =~= before.push(Seq::empty()));
        }
        i += 1;
    }
    assert(s@.take(v@.len() as int) =~= s@);
    let ghost all = views(done@).push(part@);
    assert(all.last() == part@);
    if !part.as_str().is_empty() {
        done.push(part);
        assert(views(done@) =~= all);
    } else {
        assert(views(done@) =~= all.drop_last());
    }
    done
}

/// `s` with every white space character made a blank.
pub open spec fn blanked_of(s: Seq<char>) -> Seq<char> {
    Seq::new(
        s.len(),
        |i: int|
            if is_space(s[i]) {
                ' '
            } else {
                s[i]
            },
    )
}

/// The beginning of a text on one line: white space made blanks, none around it, and
/// what is longer than `max` characters cut short.
pub open spec fn snippet_of(s: Seq<char>, max: nat) -> Seq<char> {
    let t = trim_of(blanked_of(s));
    if t.len() <= max {
        t
    } else {
        t.take(max as int) + "..."@
    }
}

/// The beginning of a text on one line.
pub fn snippet(s: &str, max: usize) -> (r: String)
    ensures
        r@ == snippet_of(s@, max as nat),
{
    let v = chars_of(s);
    let mut blanked: String = String::new();
    let mut i: usize = 0;
    while i < v.len()
        invariant
            i <= v@.len(),
            blanked@ == blanked_of(v@.take(i as int)),
        decreases v@.len() - i,
    {
        if space_char(v[i]) {
            blanked.push(' ');
        } else {
            blanked.push(v[i]);
        }
        i += 1;
        assert(blanked@ =~= blanked_of(v@.take(i as int)));
    }
    assert(v@.take(v@.len() as int) =~= s@);
    let t = trim(blanked.as_str());
    let w = chars_of(t.as_str());
    if w.len() <= max {
        t
    } else {
        assert(t@.subrange(0, max as int) =~= t@.take(max as int));
        sub_text(&w, 0, max).concat("...")
    }
}

/// What the standard library says of bytes that are no UTF-8.
pub uninterp spec fn utf8_fault(bytes: Seq<u8>) -> Seq<char>;

/// Reads bytes as UTF-8 through `std::str::from_utf8`: succeeds where the bytes are valid
/// UTF-8 and then gives the characters that they encode; otherwise gives what the error
/// displays, which is a function of the bytes.
#[verifier::external_body]
pub(crate) fn read_utf8(bytes: &[u8]) -> (r: Result<String, String>)
    ensures
        match r {
            Ok(text) => valid_utf8(bytes@) && text@ == decode_utf8(bytes@),
            Err(fault) => !valid_utf8(bytes@) && fault@ == utf8_fault(bytes@),
        },
{
    match std::str::from_utf8(bytes) {
        Ok(text) => Ok(text.to_string()),
        Err(error) => Err(error.to_string()),
    }
}

/// Every character of a text takes a byte at least.
pub proof fn encoding_is_no_shorter(s: Seq<char>)
    ensures
        encode_utf8(s).len() >= s.len(),
    decreases s.len(),
{
    if s.len() > 0 {
        encoding_is_no_shorter(s.drop_first());
        assert(encode_utf8(s) == encode_scalar(s[0] as u32) + encode_utf8(s.drop_first()));
    }
}

/// How many bytes a text takes.
pub fn byte_len(s: &str) -> (r: usize)
    ensures
        r == encode_utf8(s@).len(),
{
    s.as_bytes().len()
}

/// The longest beginning of a text that takes no more than some number of bytes.
pub open spec fn fitting_of(s: Seq<char>, max: nat) -> Seq<char>
    decreases s.len(),
{
    if s.len() == 0 || encode_utf8(s).len() <= max {
        s
    } else {
        fitting_of(s.drop_last(), max)
    }
}

/// The longest beginning that fits stands within as many characters as bytes are allowed.
proof fn fitting_is_short(s: Seq<char>, max: nat)
    requires
        s.len() > max,
    ensures
        fitting_of(s, max) == fitting_of(s.take(max as int), max),
    decreases s.len(),
{
    encoding_is_no_shorter(s);
    assert(s.drop_last() =~= s.take(s.len() - 1));
    if s.len() - 1 > max {
        fitting_is_short(s.drop_last(), max);
        assert(s.drop_last().take(max as int) =~= s.take(max as int));
    }
}

/// The longest beginning of a text that takes no more than some number of bytes.
pub fn fitting(s: &str, max: usize) -> (r: String)
    ensures
        r@ == fitting_of(s@, max as nat),
{
    let v = chars_of(s);
    let mut n: usize = v.len();
    if n > max {
        proof {
            fitting_is_short(v@, max as nat);
        }
        n = max;
    }
    assert(v@.take(v@.len() as int) =~= v@);
    loop
        invariant
            n <= v@.len(),
            fitting_of(s@, max as nat) == fitting_of(v@.take(n as int), max as nat),
        decreases n,
    {
        let head = sub_text(&v, 0, n);
        assert(v@.subrange(0, n as int) =~= v@.take(n as int));
        if n == 0 || byte_len(head.as_str()) <= max {
            return head;
        }
        n -= 1;
        assert(v@.take(n + 1).drop_last() =~= v@.take(n as int));
    }
}

/// The words of a text, a blank between them, cut after some number of bytes.
pub open spec fn brief_of(s: Seq<char>, max: nat) -> Seq<char> {
    let t = join_of(words_of(s), " "@);
    if encode_utf8(t).len() > max {
        fitting_of(t, max) + "..."@
    } else {
        t
    }
}

/// The words of a text, a blank between them, cut after some number of bytes.
pub fn brief(s: &str, max: usize) -> (r: String)
    ensures
        r@ == brief_of(s@, max as nat),
{
    let t = join(&words(s), " ");
    if byte_len(t.as_str()) > max {
        fitting(t.as_str(), max).concat("...")
    } else {
        t
    }
}

/// The first place at which a text stands in another, or -1.
pub open spec fn place_of(s: Seq<char>, p: Seq<char>) -> int
    decreases s.len(),
{
    if starts(s, p) {
        0
    } else if s.len() == 0 {
        -1
    } else {
        let rest = place_of(s.drop_first(), p);
        if rest < 0 {
            -1
        } else {
            rest + 1
        }
    }
}

/// The first place is where the text stands, and it stands at none before.
pub proof fn place_is_first(s: Seq<char>, p: Seq<char>)
    ensures
        place_of(s, p) >= 0 ==> stands_at(s, p, place_of(s, p)),
        place_of(s, p) >= 0 ==> forall|k: int| k < place_of(s, p) ==> !stands_at(s, p, k),
        place_of(s, p) < 0 ==> place_of(s, p) == -1 && forall|k: int| !stands_at(s, p, k),
    decreases s.len(),
{
    if starts(s, p) {
        assert(s.subrange(0, p.len() as int) =~= p);
    } else {
        assert(!stands_at(s, p, 0)) by {
            if stands_at(s, p, 0) {
                assert(s.take(p.len() as int) =~= p);
            }
        }
        if s.len() > 0 {
            let d = s.drop_first();
            place_is_first(d, p);
            assert forall|k: int| 0 < k implies stands_at(s, p, k) == stands_at(d, p, k - 1) by {
                if k <= s.len() - p.len() {
                    assert(s.subrange(k, k + p.len()) =~= d.subrange(k - 1, k - 1 + p.len()));
                }
            }
            assert forall|k: int| 0 < k && !stands_at(d, p, k - 1) implies !stands_at(s, p, k) by {}
            let at = place_of(d, p);
            if at >= 0 {
                assert(stands_at(s, p, at + 1));
                assert forall|k: int| k < at + 1 implies !stands_at(s, p, k) by {
                    if k > 0 {
                        assert(!stands_at(d, p, k - 1));
                    }
                }
            } else {
                assert forall|k: int| !stands_at(s, p, k) by {
                    if k > 0 {
                        assert(!stands_at(d, p, k - 1));
                    }
                }
            }
        }
    }
}

/// The first place at which a text stands in another.
pub fn place(v: &Vec<char>, p: &Vec<char>) -> (r: Option<usize>)
    ensures
        match r {
            Some(i) => place_of(v@, p@) == i && i + p@.len() <= v@.len(),
            None => place_of(v@, p@) == -1,
        },
{
    proof {
        place_is_first(v@, p@);
    }
    find_text(v, p, 0)
}

/// A text without an ending, given in small letters, that it may have in any case.
pub open spec fn drop_ending_of(s: Seq<char>, ending: Seq<char>) -> Seq<char> {
    if ends(lower_of(s), ending) {
        s.take(s.len() - ending.len())
    } else {
        s
    }
}

/// A text without an ending, given in small letters, that it may have in any case.
pub fn drop_ending(s: &str, ending: &str) -> (r: String)
    ensures
        r@ == drop_ending_of(s@, ending@),
{
    let lowered = lower(s);
    if ends_with(lowered.as_str(), ending) {
        let v = chars_of(s);
        let n: usize = v.len() - chars_of(ending).len();
        assert(v@.subrange(0, n as int) =~= v@.take(n as int));
        sub_text(&v, 0, n)
    } else {
        s.to_owned()
    }
}

pub open spec fn str_views(v: Seq<&'static str>) -> Seq<Seq<char>> {
    Seq::new(v.len(), |i: int| v[i]@)
}

/// What `String::from_utf8_lossy` makes of bytes.
pub uninterp spec fn lossy_of(bytes: Seq<u8>) -> Seq<char>;

/// Calls `String::from_utf8_lossy`. Bytes that are a text come out as that text; what comes
/// out for others depends on the bytes alone, and is named and not described.
#[verifier::external_body]
pub(crate) fn lossy(bytes: &[u8]) -> (r: String)
    ensures
        r@ == lossy_of(bytes@),
        valid_utf8(bytes@) ==> r@ == decode_utf8(bytes@),
{
    String::from_utf8_lossy(bytes).into_owned()
}

/// A power of ten.
pub open spec fn ten_to(n: nat) -> nat
    decreases n,
{
    if n == 0 {
        1
    } else {
        10 * ten_to((n - 1) as nat)
    }
}

proof fn decimal_is_short(n: nat, width: nat)
    requires
        n < ten_to(width),
        width > 0,
    ensures
        decimal_of(n).len() <= width,
    decreases width,
{
    if n >= 10 {
        if width == 1 {
            assert(ten_to(0) == 1);
        } else {
            decimal_is_short(n / 10, (width - 1) as nat);
        }
    }
}

/// A number that has no more digits than the width is filled up to it.
pub proof fn padding_fills(n: nat, width: nat)
    requires
        n < ten_to(width),
        width > 0,
    ensures
        padded_of(n, width).len() == width,
{
    decimal_is_short(n, width);
}

/// A text is split where the separator first stands.
pub proof fn split_once_at(before: Seq<char>, c: char, after: Seq<char>)
    requires
        forall|k: int| 0 <= k < before.len() ==> before[k] != c,
    ensures
        split_once_of(before + seq![c] + after, c) == Some((before, after)),
{
    let s = before + seq![c] + after;
    first_of_is(s, c, before.len() as int);
    assert(s.take(before.len() as int) =~= before);
    assert(s.skip((before.len() + 1) as int) =~= after);
}

/// A text with no white space at its ends stays as it is.
pub proof fn trim_keeps(s: Seq<char>)
    requires
        s.len() > 0 ==> !is_space(s[0]) && !is_space(s.last()),
    ensures
        trim_of(s) == s,
{
}

proof fn start_is_trimmed(s: Seq<char>)
    ensures
        trim_start_of(s).len() > 0 ==> !is_space(trim_start_of(s)[0]),
    decreases s.len(),
{
    if s.len() > 0 && is_space(s[0]) {
        start_is_trimmed(s.skip(1));
    }
}

proof fn end_is_trimmed(s: Seq<char>)
    ensures
        trim_end_of(s).len() > 0 ==> !is_space(trim_end_of(s).last()) && trim_end_of(s)[0] == s[0],
    decreases s.len(),
{
    if s.len() > 0 && is_space(s.last()) {
        end_is_trimmed(s.drop_last());
    }
}

/// What was trimmed has no white space at its ends, and is not changed by trimming.
pub proof fn trimming_is_complete(s: Seq<char>)
    ensures
        trim_of(s).len() > 0 ==> !is_space(trim_of(s)[0]) && !is_space(trim_of(s).last()),
        trim_of(trim_of(s)) == trim_of(s),
{
    start_is_trimmed(s);
    end_is_trimmed(trim_start_of(s));
    trim_keeps(trim_of(s));
}

/// How many lines say something.
pub open spec fn said_lines(lines: Seq<Seq<char>>) -> nat
    decreases lines.len(),
{
    if lines.len() == 0 {
        0
    } else {
        said_lines(lines.drop_last()) + if trim_of(lines.last()).len() > 0 {
            1nat
        } else {
            0
        }
    }
}

/// How many lines of a text say something.
pub fn count_said_lines(content: &str) -> (r: usize)
    ensures
        r == said_lines(lines_of(content@)),
{
    let all = lines(content);
    let ghost texts = views(all@);
    let mut n: usize = 0;
    let mut i: usize = 0;
    assert(texts.take(0) =~= Seq::empty());
    while i < all.len()
        invariant
            i <= all@.len(),
            texts == views(all@),
            n <= i,
            n == said_lines(texts.take(i as int)),
        decreases all@.len() - i,
    {
        assert(texts.take(i + 1).drop_last() =~= texts.take(i as int));
        assert(texts.take(i + 1).last() == all@[i as int]@);
        if !trim(all[i].as_str()).as_str().is_empty() {
            n += 1;
        }
        i += 1;
    }
    assert(texts.take(i as int) =~= texts);
    n
}

/// The bytes of a text are those of its beginning and those of the rest.
pub proof fn encoding_splits(s: Seq<char>, n: int)
    requires
        0 <= n <= s.len(),
    ensures
        encode_utf8(s).len() == encode_utf8(s.take(n)).len() + encode_utf8(s.skip(n)).len(),
    decreases n,
{
    if n == 0 {
        assert(s.take(0) =~= Seq::empty());
        assert(s.skip(0) =~= s);
    } else {
        let rest = s.drop_first();
        encoding_splits(rest, n - 1);
        assert(s.take(n).drop_first() =~= rest.take(n - 1));
        assert(s.skip(n) =~= rest.skip(n - 1));
        assert(s.take(n)[0] == s[0]);
    }
}

/// What fits of a text is a beginning of it.
pub proof fn fitting_is_prefix(s: Seq<char>, max: nat)
    ensures
        fitting_of(s, max).len() <= s.len(),
        fitting_of(s, max) == s.take(fitting_of(s, max).len() as int),
    decreases s.len(),
{
    if s.len() > 0 && encode_utf8(s).len() > max {
        fitting_is_prefix(s.drop_last(), max);
        let n = fitting_of(s, max).len() as int;
        assert(s.drop_last().take(n) =~= s.take(n));
    } else {
        assert(s.take(s.len() as int) =~= s);
    }
}

proof fn fitting_grows(s: Seq<char>, a: nat, b: nat)
    requires
        a <= b,
    ensures
        fitting_of(s, a).len() <= fitting_of(s, b).len(),
    decreases s.len(),
{
    if s.len() > 0 && encode_utf8(s).len() > a {
        fitting_is_prefix(s.drop_last(), a);
        if encode_utf8(s).len() > b {
            fitting_grows(s.drop_last(), a, b);
        }
    }
}

/// The part of a text between two numbers of bytes, where characters begin there.
pub open spec fn slice_of(s: Seq<char>, from: nat, to: nat) -> Option<Seq<char>> {
    let p = fitting_of(s, from);
    let q = fitting_of(s, to);
    if encode_utf8(p).len() == from && encode_utf8(q).len() == to {
        Some(s.subrange(p.len() as int, q.len() as int))
    } else {
        None
    }
}

/// The part of a text between two numbers of bytes, where characters begin there.
pub fn slice(s: &str, from: usize, to: usize) -> (r: Option<String>)
    requires
        from <= to,
    ensures
        match r {
            Some(t) => slice_of(s@, from as nat, to as nat) == Some(t@),
            None => slice_of(s@, from as nat, to as nat) is None,
        },
{
    let p = fitting(s, from);
    let q = fitting(s, to);
    if byte_len(p.as_str()) != from || byte_len(q.as_str()) != to {
        return None;
    }
    proof {
        fitting_is_prefix(s@, to as nat);
        fitting_grows(s@, from as nat, to as nat);
    }
    let v = chars_of(s);
    Some(sub_text(&v, chars_of(p.as_str()).len(), chars_of(q.as_str()).len()))
}

/// A part between two numbers of bytes has no more characters than bytes.
pub proof fn slice_is_short(s: Seq<char>, from: nat, to: nat)
    requires
        from <= to,
    ensures
        slice_of(s, from, to) matches Some(t) ==> t.len() <= to - from,
{
    if let Some(t) = slice_of(s, from, to) {
        let p = fitting_of(s, from);
        let q = fitting_of(s, to);
        fitting_is_prefix(s, from);
        fitting_is_prefix(s, to);
        fitting_grows(s, from, to);
        assert(q.take(p.len() as int) =~= p);
        assert(q.skip(p.len() as int) =~= t);
        encoding_splits(q, p.len() as int);
        encoding_is_no_shorter(t);
    }
}

proof fn number_is_small(s: Seq<char>)
    requires
        all_digits(s),
    ensures
        number_of(s) < ten_to(s.len()),
    decreases s.len(),
{
    if s.len() > 0 {
        number_is_small(s.drop_last());
    }
}

/// A text of few characters denotes a small number.
pub proof fn parsed_is_small(s: Seq<char>, n: nat)
    requires
        s.len() <= n,
        n > 0,
    ensures
        parse_i64_of(s) matches Some(v) ==> -ten_to((n - 1) as nat) < v < ten_to(n),
{
    if let Some(v) = parse_i64_of(s) {
        if s[0] == '-' {
            number_is_small(s.skip(1));
            tens_grow((s.len() - 1) as nat, (n - 1) as nat);
        } else {
            number_is_small(unsigned_part(s));
            tens_grow(unsigned_part(s).len(), n);
        }
        tens_grow(0, (n - 1) as nat);
    }
}

proof fn tens_grow(a: nat, b: nat)
    requires
        a <= b,
    ensures
        ten_to(a) <= ten_to(b),
    decreases b,
{
    if a < b {
        tens_grow(a, (b - 1) as nat);
    }
}

pub fn copy_texts(v: &Vec<String>) -> (r: Vec<String>)
    ensures
        views(r@) == views(v@),
{
    let mut out: Vec<String> = Vec::new();
    let mut i: usize = 0;
    while i < v.len()
        invariant
            i <= v@.len(),
            views(out@) == views(v@).take(i as int),
        decreases v@.len() - i,
    {
        let ghost before = views(out@);
        out.push(v[i].clone());
        assert(views(out@) =~= before.push(v@[i as int]@));
        i += 1;
        assert(views(v@).take(i as int) =~= before.push(v@[i - 1]@));
    }
    assert(views(v@).take(i as int) =~= views(v@));
    out
}

/// The texts of a list between two places.
pub fn texts_between(list: &Vec<String>, from: usize, to: usize) -> (r: Vec<String>)
    requires
        from <= to <= list@.len(),
    ensures
        views(r@) == views(list@).subrange(from as int, to as int),
{
    let ghost all = views(list@);
    let mut out: Vec<String> = Vec::new();
    let mut i: usize = from;
    assert(views(out@) =~= all.subrange(from as int, i as int));
    while i < to
        invariant
            from <= i <= to <= list@.len(),
            all == views(list@),
            views(out@) == all.subrange(from as int, i as int),
        decreases to - i,
    {
        let ghost before = views(out@);
        let one = list[i].clone();
        out.push(one);
        assert(views(out@) =~= before.push(one@));
        i += 1;
        assert(all.subrange(from as int, i as int) =~= all.subrange(from as int, i - 1).push(
            all[i - 1],
        ));
    }
    out
}

/// What has no separator in it goes on with the last part of what it follows.
pub proof fn split_of_more(a: Seq<char>, c: char, b: Seq<char>)
    requires
        forall|k: int| 0 <= k < b.len() ==> b[k] != c,
    ensures
        split_of(a + b, c) == split_of(a, c).update(
            split_of(a, c).len() - 1,
            split_of(a, c).last() + b,
        ),
        split_of(a, c).len() > 0,
    decreases b.len(),
{
    split_of_nonempty(a, c);
    let p = split_of(a, c);
    if b.len() == 0 {
        assert(a + b =~= a);
        assert(p.update(p.len() - 1, p.last() + b) =~= p) by {
            assert(p.last() + b =~= p.last());
        }
    } else {
        split_of_more(a, c, b.drop_last());
        assert((a + b).drop_last() =~= a + b.drop_last());
        assert(p.last() + b =~= (p.last() + b.drop_last()).push(b.last()));
        assert(split_of(a + b, c) =~= p.update(p.len() - 1, p.last() + b));
    }
}

/// The parts that a text is joined of come apart again, where none has the separator in it.
pub proof fn split_of_join(parts: Seq<Seq<char>>, c: char)
    requires
        parts.len() > 0,
        forall|i: int, k: int|
            0 <= i < parts.len() && 0 <= k < parts[i].len() ==> (#[trigger] parts[i][k]) != c,
    ensures
        split_of(join_of(parts, seq![c]), c) == parts,
    decreases parts.len(),
{
    let last = parts.last();
    assert forall|k: int| 0 <= k < last.len() implies last[k] != c by {
        assert(parts[parts.len() - 1][k] != c);
    }
    if parts.len() == 1 {
        split_of_more(Seq::empty(), c, last);
        assert(Seq::<char>::empty() + last =~= last);
        assert(split_of(last, c) =~= parts);
    } else {
        let rest = parts.drop_last();
        assert forall|i: int, k: int|
            0 <= i < rest.len() && 0 <= k < rest[i].len() implies (#[trigger] rest[i][k]) != c by {
            assert(parts[i][k] != c);
        }
        split_of_join(rest, c);
        let before = join_of(rest, seq![c]) + seq![c];
        assert(before.drop_last() =~= join_of(rest, seq![c]));
        assert(split_of(before, c) == rest.push(Seq::empty()));
        split_of_more(before, c, last);
        assert(Seq::<char>::empty() + last =~= last);
        assert(split_of(before + last, c) =~= parts);
    }
}

/// A text that ends in something says something.
pub proof fn ending_is_said(s: Seq<char>)
    requires
        s.len() > 0,
        !is_space(s.last()),
    ensures
        trim_of(s).len() > 0,
    decreases s.len(),
{
    if is_space(s[0]) {
        assert(s.skip(1).last() == s.last());
        ending_is_said(s.skip(1));
        assert(trim_start_of(s) == trim_start_of(s.skip(1)));
    }
}

/// A text of plain characters takes a byte for each, so it can be cut anywhere: the part between
/// two numbers of bytes is that between as many characters.
pub proof fn plain_text_is_cut_anywhere(s: Seq<char>, from: int, to: int)
    requires
        forall|i: int| 0 <= i < s.len() ==> (#[trigger] s[i] as u32) < 128,
        0 <= from <= to <= s.len(),
    ensures
        encode_utf8(s).len() == s.len(),
        fitting_of(s, to as nat) == s.take(to),
        slice_of(s, from as nat, to as nat) == Some(s.subrange(from, to)),
{
    plain_is_as_long(s);
    plain_is_as_long(s.take(from));
    plain_is_as_long(s.take(to));
    plain_fits(s, from);
    plain_fits(s, to);
}

proof fn plain_is_as_long(s: Seq<char>)
    requires
        forall|i: int| 0 <= i < s.len() ==> (#[trigger] s[i] as u32) < 128,
    ensures
        encode_utf8(s).len() == s.len(),
    decreases s.len(),
{
    if s.len() > 0 {
        let d = s.drop_first();
        assert forall|i: int| 0 <= i < d.len() implies (#[trigger] d[i] as u32) < 128 by {
            assert(d[i] == s[i + 1]);
        }
        plain_is_as_long(d);
        assert(encode_utf8(s) == encode_scalar(s[0] as u32) + encode_utf8(d));
        assert(encode_scalar(s[0] as u32).len() == 1);
    }
}

proof fn plain_fits(s: Seq<char>, n: int)
    requires
        forall|i: int| 0 <= i < s.len() ==> (#[trigger] s[i] as u32) < 128,
        0 <= n <= s.len(),
    ensures
        fitting_of(s, n as nat) == s.take(n),
    decreases s.len(),
{
    plain_is_as_long(s);
    if s.len() > n {
        plain_fits(s.drop_last(), n);
        assert(s.drop_last().take(n) =~= s.take(n));
    } else {
        assert(s.take(n) =~= s);
    }
}

/// Figures stand for a number to the base of ten: those of two texts one behind the other for the
/// first, as many places higher as the second has figures, and the second.
pub proof fn figures_are_to_the_base_of_ten(a: Seq<char>, b: Seq<char>)
    requires
        all_digits(a),
        all_digits(b),
    ensures
        number_of(a + b) == number_of(a) * ten_to(b.len()) + number_of(b),
        forall|d: int|
            0 <= d < 10 ==> #[trigger] number_of(seq![digit_char(d)]) == d && '0' <= digit_char(d)
                <= '9',
    decreases b.len(),
{
    assert forall|d: int| 0 <= d < 10 implies #[trigger] number_of(seq![digit_char(d)]) == d && '0'
        <= digit_char(d) <= '9' by {
        let s = seq![digit_char(d)];
        assert(s.drop_last().len() == 0);
        assert(number_of(s.drop_last()) == 0);
        assert(s.last() == digit_char(d));
    }
    if b.len() == 0 {
        assert(a + b =~= a);
        assert(ten_to(0) == 1);
    } else {
        let d = b.drop_last();
        assert(all_digits(d)) by {
            assert forall|i: int| 0 <= i < d.len() implies '0' <= #[trigger] d[i] <= '9' by {
                assert(d[i] == b[i]);
            }
        }
        figures_are_to_the_base_of_ten(a, d);
        assert((a + b).drop_last() =~= a + d);
        assert((a + b).last() == b.last());
        assert('0' <= b[b.len() - 1] <= '9');
        let (n, t) = (number_of(a) as int, ten_to(d.len()) as int);
        assert(n * (10 * t) == 10 * (n * t)) by (nonlinear_arith);
        assert(ten_to(b.len()) == 10 * t);
        assert(number_of(b) == 10 * number_of(d) + (b.last() as int - 48));
        assert(number_of(a + b) == 10 * number_of(a + d) + (b.last() as int - 48));
    }
}

/// A number that is written down reads back, with or without a sign that says that it is
/// positive, and it is written without needless zeros.
pub proof fn decimals_read_back(n: nat, max: nat)
    requires
        n <= max,
    ensures
        parse_of(decimal_of(n), max) == Some(n),
        parse_of(seq!['+'] + decimal_of(n), max) == Some(n),
        n > 0 ==> decimal_of(n)[0] != '0',
        n == 0 ==> decimal_of(n) == seq!['0'],
        max < 1_000_000_000 ==> parse_of(decimal_of(max + 1), max) is None,
{
    decimal_is_figures(n);
    decimal_is_figures(max + 1);
    let signed = seq!['+'] + decimal_of(n);
    assert(signed.skip(1) =~= decimal_of(n));
    assert('0' <= decimal_of(n)[0] <= '9');
    assert('0' <= decimal_of(max + 1)[0] <= '9');
}

proof fn decimal_is_figures(n: nat)
    ensures
        all_digits(decimal_of(n)),
        decimal_of(n).len() > 0,
        number_of(decimal_of(n)) == n,
        n > 0 ==> decimal_of(n)[0] != '0',
    decreases n,
{
    let s = decimal_of(n);
    if n < 10 {
        assert(s.drop_last().len() == 0);
        assert(number_of(s.drop_last()) == 0);
    } else {
        decimal_is_figures(n / 10);
        let d = decimal_of(n / 10);
        assert(s.drop_last() =~= d);
        assert forall|i: int| 0 <= i < s.len() implies '0' <= #[trigger] s[i] <= '9' by {
            if i < d.len() {
                assert(s[i] == d[i]);
            }
        }
        assert(s[0] == d[0]);
    }
}

/// A number with a sign that is written down reads back.
pub proof fn signed_decimals_read_back(n: int)
    requires
        i64::MIN <= n <= i64::MAX,
    ensures
        parse_i64_of(signed_decimal_of(n)) == Some(n),
{
    if n < 0 {
        decimal_is_figures((-n) as nat);
        assert(signed_decimal_of(n).skip(1) =~= decimal_of((-n) as nat));
    } else {
        decimals_read_back(n as nat, i64::MAX as nat);
        decimal_is_figures(n as nat);
        assert('0' <= decimal_of(n as nat)[0] <= '9');
    }
}

/// To fill a number up with zeros in front changes neither what it stands for nor its last
/// figures, and makes it no shorter than is asked.
pub proof fn padding_changes_no_number(n: nat, width: nat)
    ensures
        all_digits(padded_of(n, width)),
        number_of(padded_of(n, width)) == n,
        padded_of(n, width).len() >= width,
        ends(padded_of(n, width), decimal_of(n)),
        decimal_of(n).len() >= width ==> padded_of(n, width) == decimal_of(n),
{
    decimal_is_figures(n);
    let d = decimal_of(n);
    let s = padded_of(n, width);
    if d.len() < width {
        let zeros = Seq::new((width - d.len()) as nat, |i: int| '0');
        assert(all_digits(zeros));
        zeros_are_nothing(zeros);
        figures_are_to_the_base_of_ten(zeros, d);
        assert(number_of(zeros) * ten_to(d.len()) == 0) by (nonlinear_arith)
            requires
                number_of(zeros) == 0,
        ;
        assert forall|i: int| 0 <= i < s.len() implies '0' <= #[trigger] s[i] <= '9' by {
            if i >= zeros.len() {
                assert(s[i] == d[i - zeros.len()]);
            }
        }
        assert(s.skip(s.len() - d.len()) =~= d);
    } else {
        assert(s.skip(0) =~= s);
    }
}

proof fn zeros_are_nothing(s: Seq<char>)
    requires
        forall|i: int| 0 <= i < s.len() ==> s[i] == '0',
    ensures
        number_of(s) == 0,
    decreases s.len(),
{
    if s.len() > 0 {
        assert forall|i: int| 0 <= i < s.drop_last().len() implies s.drop_last()[i] == '0' by {
            assert(s.drop_last()[i] == s[i]);
        }
        zeros_are_nothing(s.drop_last());
        assert(s.last() == s[s.len() - 1]);
    }
}

/// What is trimmed off a text is blank: the text is what is left of it between blanks.
pub proof fn only_blanks_are_trimmed(s: Seq<char>) -> (r: (Seq<char>, Seq<char>))
    ensures
        s == r.0 + trim_of(s) + r.1,
        forall|i: int| 0 <= i < r.0.len() ==> is_space(#[trigger] r.0[i]),
        forall|i: int| 0 <= i < r.1.len() ==> is_space(#[trigger] r.1[i]),
{
    let a = start_is_blank(s);
    let t = trim_start_of(s);
    let b = end_is_blank(t);
    assert(s =~= a + trim_of(s) + b);
    (a, b)
}

proof fn start_is_blank(s: Seq<char>) -> (r: Seq<char>)
    ensures
        s == r + trim_start_of(s),
        forall|i: int| 0 <= i < r.len() ==> is_space(#[trigger] r[i]),
    decreases s.len(),
{
    if s.len() > 0 && is_space(s[0]) {
        let rest = start_is_blank(s.skip(1));
        let r = seq![s[0]] + rest;
        assert(s =~= seq![s[0]] + s.skip(1));
        assert(s =~= r + trim_start_of(s));
        assert forall|i: int| 0 <= i < r.len() implies is_space(#[trigger] r[i]) by {
            if i > 0 {
                assert(r[i] == rest[i - 1]);
            }
        }
        r
    } else {
        assert(s =~= Seq::<char>::empty() + s);
        Seq::empty()
    }
}

proof fn end_is_blank(s: Seq<char>) -> (r: Seq<char>)
    ensures
        s == trim_end_of(s) + r,
        forall|i: int| 0 <= i < r.len() ==> is_space(#[trigger] r[i]),
    decreases s.len(),
{
    if s.len() > 0 && is_space(s.last()) {
        let rest = end_is_blank(s.drop_last());
        let r = rest.push(s.last());
        assert(s =~= s.drop_last().push(s.last()));
        assert(s =~= trim_end_of(s) + r);
        r
    } else {
        assert(s =~= s + Seq::<char>::empty());
        Seq::empty()
    }
}

/// What is stripped off the end of a text is one character, over and over, until another stands
/// there; and so at its start.
pub proof fn all_of_one_is_stripped(s: Seq<char>, c: char)
    ensures
        strip_end_of(s, c).len() <= s.len(),
        strip_end_of(s, c) == s.take(strip_end_of(s, c).len() as int),
        forall|i: int| strip_end_of(s, c).len() <= i < s.len() ==> #[trigger] s[i] == c,
        strip_end_of(s, c).len() > 0 ==> strip_end_of(s, c).last() != c,
        strip_start_of(s, c).len() <= s.len(),
        strip_start_of(s, c) == s.skip(s.len() - strip_start_of(s, c).len()),
        forall|i: int| 0 <= i < s.len() - strip_start_of(s, c).len() ==> #[trigger] s[i] == c,
        strip_start_of(s, c).len() > 0 ==> strip_start_of(s, c)[0] != c,
{
    end_is_stripped(s, c);
    start_is_stripped(s, c);
}

proof fn end_is_stripped(s: Seq<char>, c: char)
    ensures
        strip_end_of(s, c).len() <= s.len(),
        strip_end_of(s, c) == s.take(strip_end_of(s, c).len() as int),
        forall|i: int| strip_end_of(s, c).len() <= i < s.len() ==> #[trigger] s[i] == c,
        strip_end_of(s, c).len() > 0 ==> strip_end_of(s, c).last() != c,
    decreases s.len(),
{
    if s.len() > 0 && s.last() == c {
        let d = s.drop_last();
        end_is_stripped(d, c);
        let n = strip_end_of(s, c).len() as int;
        assert(d.take(n) =~= s.take(n));
        assert forall|i: int| n <= i < s.len() implies #[trigger] s[i] == c by {
            if i < d.len() {
                assert(d[i] == c);
            }
        }
    } else {
        assert(s.take(s.len() as int) =~= s);
    }
}

proof fn start_is_stripped(s: Seq<char>, c: char)
    ensures
        strip_start_of(s, c).len() <= s.len(),
        strip_start_of(s, c) == s.skip(s.len() - strip_start_of(s, c).len()),
        forall|i: int| 0 <= i < s.len() - strip_start_of(s, c).len() ==> #[trigger] s[i] == c,
        strip_start_of(s, c).len() > 0 ==> strip_start_of(s, c)[0] != c,
    decreases s.len(),
{
    if s.len() > 0 && s[0] == c {
        let d = s.skip(1);
        start_is_stripped(d, c);
        let n = strip_start_of(s, c).len() as int;
        assert(d.skip(d.len() - n) =~= s.skip(s.len() - n));
        assert forall|i: int| 0 <= i < s.len() - n implies #[trigger] s[i] == c by {
            if i > 0 {
                assert(d[i - 1] == c);
            }
        }
    } else {
        assert(s.skip(0) =~= s);
    }
}

/// The case of letters is all that changes: a text has the same letters in capitals and without,
/// and to change the case twice is to change it once.
pub proof fn case_is_all_that_changes(s: Seq<char>)
    ensures
        upper_of(s).len() == s.len(),
        lower_of(s).len() == s.len(),
        lower_of(upper_of(s)) == lower_of(s),
        upper_of(lower_of(s)) == upper_of(s),
        upper_of(upper_of(s)) == upper_of(s),
        lower_of(lower_of(s)) == lower_of(s),
        forall|i: int|
            0 <= i < s.len() && !('a' <= #[trigger] s[i] <= 'z' || 'A' <= s[i] <= 'Z')
                ==> upper_of(s)[i] == s[i] && lower_of(s)[i] == s[i],
        forall|i: int|
            0 <= i < s.len() && 'a' <= #[trigger] s[i] <= 'z' ==> 'A' <= upper_of(s)[i] <= 'Z' && s[i]
                as int - 'a' as int == upper_of(s)[i] as int - 'A' as int,
{
    assert(lower_of(upper_of(s)) =~= lower_of(s));
    assert(upper_of(lower_of(s)) =~= upper_of(s));
    assert(upper_of(upper_of(s)) =~= upper_of(s));
    assert(lower_of(lower_of(s)) =~= lower_of(s));
}

/// A text starts with its beginning, ends with its end, and holds every part of it.
pub proof fn parts_are_found(a: Seq<char>, b: Seq<char>, c: Seq<char>)
    ensures
        starts(a + b, a),
        ends(a + b, b),
        holds(a + b + c, b),
{
    assert((a + b).take(a.len() as int) =~= a);
    assert((a + b).skip(a.len() as int) =~= b);
    assert((a + b + c).subrange(a.len() as int, (a.len() + b.len()) as int) =~= b);
    assert(stands_at(a + b + c, b, a.len() as int));
}

/// A text is cut at the last of a character, where the rest has none of it.
pub proof fn last_one_cuts(before: Seq<char>, c: char, after: Seq<char>)
    requires
        forall|k: int| 0 <= k < after.len() ==> after[k] != c,
    ensures
        rsplit_once_of(before + seq![c] + after, c) == Some((before, after)),
        rsplit_once_of(after, c) is None,
{
    let s = before + seq![c] + after;
    last_stands_before(s, c, before.len() as int);
    none_is_last(after, c);
    assert(s.take(before.len() as int) =~= before);
    assert(s.skip((before.len() + 1) as int) =~= after);
}

proof fn last_stands_before(s: Seq<char>, c: char, at: int)
    requires
        0 <= at < s.len(),
        s[at] == c,
        forall|k: int| at < k < s.len() ==> s[k] != c,
    ensures
        last_of(s, c) == at,
    decreases s.len(),
{
    if at < s.len() - 1 {
        let d = s.drop_last();
        assert(s.last() == s[s.len() - 1]);
        assert forall|k: int| at < k < d.len() implies d[k] != c by {
            assert(d[k] == s[k]);
        }
        last_stands_before(d, c, at);
    }
}

proof fn none_is_last(s: Seq<char>, c: char)
    requires
        forall|k: int| 0 <= k < s.len() ==> s[k] != c,
    ensures
        last_of(s, c) == -1,
    decreases s.len(),
{
    if s.len() > 0 {
        let d = s.drop_last();
        assert(s.last() == s[s.len() - 1]);
        assert forall|k: int| 0 <= k < d.len() implies d[k] != c by {
            assert(d[k] == s[k]);
        }
        none_is_last(d, c);
    }
}

/// The lines of a text are those that it was put together from, each with its end, where none of
/// them holds the end of a line.
pub proof fn lines_read_back(lines: Seq<Seq<char>>)
    requires
        lines.len() > 0,
        forall|i: int, k: int|
            0 <= i < lines.len() && 0 <= k < lines[i].len() ==> (#[trigger] lines[i][k]) != '\n'
                && lines[i][k] != '\r',
    ensures
        lines_of(join_of(lines, seq!['\n']) + seq!['\n']) == lines,
        lines.last().len() > 0 ==> lines_of(join_of(lines, seq!['\n'])) == lines,
{
    let s = join_of(lines, seq!['\n']);
    split_of_join(lines, '\n');
    let t = s + seq!['\n'];
    assert(t.drop_last() =~= s);
    let p = split_of(t, '\n');
    assert(p =~= lines.push(Seq::empty()));
    assert(p.drop_last() =~= lines);
    assert forall|i: int| 0 <= i < lines.len() implies without_cr(
        #[trigger] lines[i],
        i + 1 < p.len(),
    ) == lines[i] by {
        if lines[i].len() > 0 {
            assert(lines[i][lines[i].len() - 1] != '\r');
        }
    }
    assert(lines_of(t) =~= lines);
    assert forall|i: int| 0 <= i < lines.len() implies without_cr(
        #[trigger] lines[i],
        i + 1 < lines.len(),
    ) == lines[i] by {
        if lines[i].len() > 0 {
            assert(lines[i][lines[i].len() - 1] != '\r');
        }
    }
    if lines.last().len() > 0 {
        assert(lines_of(s) =~= lines);
    }
}

/// Words have no blanks and none is empty.
pub proof fn words_are_no_blanks(s: Seq<char>, i: int)
    requires
        0 <= i < words_of(s).len(),
    ensures
        words_of(s)[i].len() > 0,
        forall|k: int| 0 <= k < words_of(s)[i].len() ==> !is_space(#[trigger] words_of(s)[i][k]),
{
    words_so_far_are_words(s);
}

proof fn words_so_far_are_words(s: Seq<char>)
    ensures
        words_so_far(s).len() > 0,
        forall|i: int| 0 <= i < words_so_far(s).len() - 1 ==> (#[trigger] words_so_far(s)[i]).len() > 0,
        forall|i: int, k: int|
            0 <= i < words_so_far(s).len() && 0 <= k < words_so_far(s)[i].len() ==> !is_space(
                #[trigger] words_so_far(s)[i][k],
            ),
    decreases s.len(),
{
    if s.len() > 0 {
        words_so_far_are_words(s.drop_last());
        let p = words_so_far(s.drop_last());
        let q = words_so_far(s);
        assert forall|i: int, k: int|
            0 <= i < q.len() && 0 <= k < q[i].len() implies !is_space(#[trigger] q[i][k]) by {
            if i < p.len() && k < p[i].len() {
                assert(!is_space(p[i][k]));
            }
        }
        assert forall|i: int| 0 <= i < q.len() - 1 implies (#[trigger] q[i]).len() > 0 by {
            if i < p.len() - 1 {
                assert(p[i].len() > 0);
            }
        }
    }
}

/// A snippet is no longer than is asked, but for what says that it was cut, and it is the start
/// of the text, its blanks made spaces and those at its ends left out.
pub proof fn snippets_are_short(s: Seq<char>, max: nat)
    ensures
        snippet_of(s, max).len() <= max + 3,
        trim_of(blanked_of(s)).len() <= max ==> snippet_of(s, max) == trim_of(blanked_of(s)),
        trim_of(blanked_of(s)).len() > max ==> starts(trim_of(blanked_of(s)), snippet_of(s, max).take(max as int)),
        forall|i: int| 0 <= i < s.len() && !is_space(#[trigger] s[i]) ==> blanked_of(s)[i] == s[i],
        forall|i: int| 0 <= i < s.len() && is_space(#[trigger] s[i]) ==> blanked_of(s)[i] == ' ',
{
    reveal_strlit("...");
    let t = trim_of(blanked_of(s));
    if t.len() > max {
        assert(snippet_of(s, max).take(max as int) =~= t.take(max as int));
    }
}

} // verus!
