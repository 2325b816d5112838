//! Settings from a file of `KEY=value` lines, taken literally.
use crate::feeder::error::{FeedError, FeedFault};
use crate::text::{
    chars_of, decimal, decimal_of, is_space, lines, lines_of, space_char, split_once, split_once_at,
    split_once_of,
    starts, starts_with, sub_text, trim, trim_end, trim_end_of, trim_of, trim_start, trim_start_of,
    views,
};
use vstd::prelude::*;

verus! {

/// What a character stands for behind a backslash.
pub open spec fn unescaped(c: char) -> char {
    if c == 'n' {
        '\n'
    } else if c == 'r' {
        '\r'
    } else if c == 't' {
        '\t'
    } else {
        c
    }
}

/// What stands between the quote that has been passed and the next one. A backslash
/// escapes the next character, but not between single quotes.
pub open spec fn quoted_of(s: Seq<char>, quote: char, escaped: bool) -> Seq<char>
    decreases s.len(),
{
    if s.len() == 0 {
        Seq::empty()
    } else if quote == '"' && escaped {
        seq![unescaped(s[0])] + quoted_of(s.skip(1), quote, false)
    } else if quote == '"' && s[0] == '\\' {
        quoted_of(s.skip(1), quote, true)
    } else if s[0] == quote {
        Seq::empty()
    } else {
        seq![s[0]] + quoted_of(s.skip(1), quote, false)
    }
}

/// Whether a comment begins at a place: a hash that begins the text or follows white
/// space.
pub open spec fn comment_at(s: Seq<char>, i: int) -> bool {
    s[i] == '#' && (i == 0 || is_space(s[i - 1]))
}

/// Whether a place is where the text before the first comment ends.
pub open spec fn comment_cut(s: Seq<char>, i: int) -> bool {
    &&& 0 <= i <= s.len()
    &&& i < s.len() ==> comment_at(s, i)
    &&& forall|k: int| 0 <= k < i ==> !(#[trigger] comment_at(s, k))
}

/// The text before the first comment.
pub open spec fn uncommented_of(s: Seq<char>) -> Seq<char> {
    s.take(choose|i: int| comment_cut(s, i))
}

/// The value that the text behind the equals sign denotes.
pub open spec fn value_of(raw: Seq<char>) -> Seq<char> {
    if raw.len() > 0 && (raw[0] == '\'' || raw[0] == '"') {
        quoted_of(raw.skip(1), raw[0], false)
    } else {
        trim_end_of(uncommented_of(raw))
    }
}

/// The text before the first comment.
pub fn strip_unquoted_comment(value: &str) -> (r: String)
    ensures
        r@ == uncommented_of(value@),
{
    let v = chars_of(value);
    let mut previous_was_whitespace = false;
    let mut i: usize = 0;
    while i < v.len()
        invariant
            v@ == value@,
            i <= v@.len(),
            i > 0 ==> previous_was_whitespace == is_space(v@[i - 1]),
            forall|k: int| 0 <= k < i ==> !(#[trigger] comment_at(v@, k)),
        decreases v@.len() - i,
    {
        if v[i] == '#' && (i == 0 || previous_was_whitespace) {
            proof {
                cut_is(v@, i as int);
            }
            assert(v@.subrange(0, i as int) =~= v@.take(i as int));
            return sub_text(&v, 0, i);
        }
        previous_was_whitespace = space_char(v[i]);
        i += 1;
    }
    proof {
        cut_is(v@, i as int);
    }
    assert(v@.take(i as int) =~= v@);
    value.to_owned()
}

proof fn cut_is(s: Seq<char>, i: int)
    requires
        comment_cut(s, i),
    ensures
        uncommented_of(s) == s.take(i),
{
    let j = choose|j: int| comment_cut(s, j);
    if i < j {
        assert(!comment_at(s, i));
    } else if j < i {
        assert(!comment_at(s, j));
    }
}

/// The value that the text behind the equals sign denotes.
pub fn parse_dotenv_value(raw_value: &str) -> (r: String)
    ensures
        r@ == value_of(raw_value@),
{
    let v = chars_of(raw_value);
    if v.len() == 0 || (v[0] != '\'' && v[0] != '"') {
        return trim_end(strip_unquoted_comment(raw_value).as_str());
    }
    let quote: char = v[0];
    let mut value: String = String::new();
    let mut escaped = false;
    let mut i: usize = 1;
    assert(value@ + quoted_of(v@.skip(1), quote, false) =~= quoted_of(v@.skip(1), quote, false));
    while i < v.len()
        invariant
            1 <= i <= v@.len(),
            escaped ==> quote == '"',
            value_of(raw_value@) == quoted_of(v@.skip(1), quote, false),
            value@ + quoted_of(v@.skip(i as int), quote, escaped) == quoted_of(
                v@.skip(1),
                quote,
                false,
            ),
        decreases v@.len() - i,
    {
        let ch: char = v[i];
        let ghost rest = v@.skip(i as int);
        let ghost before = value@;
        assert(rest[0] == ch);
        assert(rest.skip(1) =~= v@.skip(i + 1));
        if quote == '"' && escaped {
            let plain: char = if ch == 'n' {
                '\n'
            } else if ch == 'r' {
                '\r'
            } else if ch == 't' {
                '\t'
            } else {
                ch
            };
            value.push(plain);
            escaped = false;
            assert(value@ + quoted_of(v@.skip(i + 1), quote, false) =~= before + (seq![
                unescaped(ch),
            ] + quoted_of(v@.skip(i + 1), quote, false)));
        } else if quote == '"' && ch == '\\' {
            escaped = true;
        } else if ch == quote {
            assert(value@ + Seq::<char>::empty() =~= value@);
            return value;
        } else {
            value.push(ch);
            assert(value@ + quoted_of(v@.skip(i + 1), quote, false) =~= before + (seq![ch]
                + quoted_of(v@.skip(i + 1), quote, false)));
        }
        i += 1;
    }
    assert(v@.skip(v@.len() as int) =~= Seq::empty());
    assert(value@ + Seq::<char>::empty() =~= value@);
    value
}

/// A text without the word that may stand before a setting.
pub open spec fn unexported_of(line: Seq<char>) -> Seq<char> {
    if starts(line, "export "@) {
        line.skip("export "@.len() as int)
    } else {
        line
    }
}

/// The setting that a line makes; none where it is blank or a comment.
pub open spec fn setting_of(line: Seq<char>, number: nat) -> Result<
    Option<(Seq<char>, Seq<char>)>,
    FeedFault,
> {
    let t = trim_start_of(line);
    if t.len() == 0 || t[0] == '#' {
        Ok(None)
    } else {
        match split_once_of(unexported_of(t), '=') {
            None => Err(
                FeedFault::Config(
                    "invalid .env line "@ + decimal_of(number) + ": missing '='"@,
                ),
            ),
            Some((key, raw)) => if trim_of(key).len() == 0 {
                Err(
                    FeedFault::Config(
                        "invalid .env line "@ + decimal_of(number) + ": empty key"@,
                    ),
                )
            } else {
                Ok(Some((trim_of(key), value_of(trim_start_of(raw)))))
            },
        }
    }
}

/// The settings that lines make, in their order.
pub open spec fn settings_of(list: Seq<Seq<char>>) -> Result<
    Seq<(Seq<char>, Seq<char>)>,
    FeedFault,
>
    decreases list.len(),
{
    if list.len() == 0 {
        Ok(Seq::empty())
    } else {
        match settings_of(list.drop_last()) {
            Err(e) => Err(e),
            Ok(known) => match setting_of(list.last(), list.len()) {
                Err(e) => Err(e),
                Ok(None) => Ok(known),
                Ok(Some(setting)) => Ok(known.push(setting)),
            },
        }
    }
}

pub open spec fn setting_views(v: Seq<(String, String)>) -> Seq<(Seq<char>, Seq<char>)> {
    Seq::new(v.len(), |i: int| (v[i].0@, v[i].1@))
}

proof fn settings_fail(list: Seq<Seq<char>>, n: int)
    requires
        0 <= n <= list.len(),
        settings_of(list.take(n)) is Err,
    ensures
        settings_of(list) == settings_of(list.take(n)),
    decreases list.len() - n,
{
    if n < list.len() {
        assert(list.take(n + 1).drop_last() =~= list.take(n));
        settings_fail(list, n + 1);
    } else {
        assert(list.take(n) =~= list);
    }
}

/// The setting that a line makes.
fn parse_line(line: &str, number: u64) -> (r: Result<Option<(String, String)>, FeedError>)
    ensures
        match r {
            Ok(Some(p)) => setting_of(line@, number as nat) == Ok::<
                Option<(Seq<char>, Seq<char>)>,
                FeedFault,
            >(Some((p.0@, p.1@))),
            Ok(None) => setting_of(line@, number as nat) == Ok::<
                Option<(Seq<char>, Seq<char>)>,
                FeedFault,
            >(None),
            Err(e) => setting_of(line@, number as nat) == Err::<
                Option<(Seq<char>, Seq<char>)>,
                FeedFault,
            >(e@),
        },
{
    let t = trim_start(line);
    let v = chars_of(t.as_str());
    if v.len() == 0 || v[0] == '#' {
        return Ok(None);
    }
    let body = if starts_with(t.as_str(), "export ") {
        let n: usize = chars_of("export ").len();
        assert(v@.subrange(n as int, v@.len() as int) =~= v@.skip(n as int));
        sub_text(&v, n, v.len())
    } else {
        t
    };
    match split_once(body.as_str(), '=') {
        None => {
            let mut message = "invalid .env line ".to_owned();
            message.append(decimal(number).as_str());
            message.append(": missing '='");
            Err(FeedError::Config(message))
        },
        Some((raw_key, raw_value)) => {
            let key = trim(raw_key.as_str());
            if key.as_str().is_empty() {
                let mut message = "invalid .env line ".to_owned();
                message.append(decimal(number).as_str());
                message.append(": empty key");
                return Err(FeedError::Config(message));
            }
            let value = parse_dotenv_value(trim_start(raw_value.as_str()).as_str());
            Ok(Some((key, value)))
        },
    }
}

/// Reads the settings of a file.
pub fn parse_dotenv_literal(content: &str) -> (r: Result<Vec<(String, String)>, FeedError>)
    ensures
        match r {
            Ok(values) => settings_of(lines_of(content@)) == Ok::<
                Seq<(Seq<char>, Seq<char>)>,
                FeedFault,
            >(setting_views(values@)),
            Err(e) => settings_of(lines_of(content@)) == Err::<
                Seq<(Seq<char>, Seq<char>)>,
                FeedFault,
            >(e@),
        },
{
    let all = lines(content);
    let ghost list = views(all@);
    let mut values: Vec<(String, String)> = Vec::new();
    let mut i: usize = 0;
    assert(setting_views(values@) =~= Seq::empty());
    assert(list.take(0) =~= Seq::empty());
    while i < all.len()
        invariant
            list == views(all@),
            list == lines_of(content@),
            i <= all@.len(),
            settings_of(list.take(i as int)) == Ok::<Seq<(Seq<char>, Seq<char>)>, FeedFault>(
                setting_views(values@),
            ),
        decreases all@.len() - i,
    {
        let ghost before = setting_views(values@);
        assert(list.take(i + 1).drop_last() =~= list.take(i as int));
        assert(list.take(i + 1).last() == all@[i as int]@);
        match parse_line(all[i].as_str(), i as u64 + 1) {
            Ok(Some(setting)) => {
                let ghost pair = (setting.0@, setting.1@);
                values.push(setting);
                assert(setting_views(values@) =~= before.push(pair));
            },
            Ok(None) => {},
            Err(e) => {
                proof {
                    settings_fail(list, i + 1);
                }
                return Err(e);
            },
        }
        i += 1;
    }
    assert(list.take(list.len() as int) =~= list);
    Ok(values)
}

/// What stands between quotes is the value, up to the next such quote: between double quotes a
/// backslash stands before a character that is meant as it is, or for the end of a line, a return
/// or a tab, and between single quotes everything is meant as it is.
pub proof fn quotes_enclose_values(value: Seq<char>, rest: Seq<char>)
    ensures
        (forall|i: int| 0 <= i < value.len() ==> value[i] != '\'') ==> value_of(
            seq!['\''] + value + seq!['\''] + rest,
        ) == value,
        (forall|i: int| 0 <= i < value.len() ==> value[i] != '"' && value[i] != '\\') ==> value_of(
            seq!['"'] + value + seq!['"'] + rest,
        ) == value,
        quoted_of(seq!['\\', 'n'] + rest, '"', false) == seq!['\n'] + quoted_of(rest, '"', false),
        quoted_of(seq!['\\', 'r'] + rest, '"', false) == seq!['\r'] + quoted_of(rest, '"', false),
        quoted_of(seq!['\\', 't'] + rest, '"', false) == seq!['\t'] + quoted_of(rest, '"', false),
        quoted_of(seq!['\\', '"'] + rest, '"', false) == seq!['"'] + quoted_of(rest, '"', false),
        quoted_of(seq!['\\', '\\'] + rest, '"', false) == seq!['\\'] + quoted_of(
            rest,
            '"',
            false,
        ),
{
    let single = seq!['\''] + value + seq!['\''] + rest;
    let double = seq!['"'] + value + seq!['"'] + rest;
    assert(single.skip(1) =~= value + seq!['\''] + rest);
    assert(double.skip(1) =~= value + seq!['"'] + rest);
    if forall|i: int| 0 <= i < value.len() ==> value[i] != '\'' {
        quote_ends(value, '\'', rest);
    }
    if forall|i: int| 0 <= i < value.len() ==> value[i] != '"' && value[i] != '\\' {
        quote_ends(value, '"', rest);
    }
    escape_is_read('n', rest);
    escape_is_read('r', rest);
    escape_is_read('t', rest);
    escape_is_read('"', rest);
    escape_is_read('\\', rest);
}

proof fn escape_is_read(c: char, rest: Seq<char>)
    ensures
        quoted_of(seq!['\\', c] + rest, '"', false) == seq![unescaped(c)] + quoted_of(
            rest,
            '"',
            false,
        ),
{
    let s = seq!['\\', c] + rest;
    assert(s.skip(1) =~= seq![c] + rest);
    assert(s.skip(1).skip(1) =~= rest);
    reveal_with_fuel(quoted_of, 3);
}

proof fn quote_ends(value: Seq<char>, quote: char, rest: Seq<char>)
    requires
        quote == '"' || quote == '\'',
        forall|i: int| 0 <= i < value.len() ==> value[i] != quote,
        quote == '"' ==> forall|i: int| 0 <= i < value.len() ==> value[i] != '\\',
    ensures
        quoted_of(value + seq![quote] + rest, quote, false) == value,
    decreases value.len(),
{
    let s = value + seq![quote] + rest;
    if value.len() == 0 {
        assert(s[0] == quote);
        assert(value =~= Seq::empty());
    } else {
        let d = value.skip(1);
        assert(s[0] == value[0]);
        assert(s.skip(1) =~= d + seq![quote] + rest);
        assert forall|i: int| 0 <= i < d.len() implies d[i] != quote && (quote == '"' ==> d[i]
            != '\\') by {
            assert(d[i] == value[i + 1]);
        }
        quote_ends(d, quote, rest);
        assert(value =~= seq![value[0]] + d);
    }
}

/// A value without quotes ends where a comment begins, which is at a hash behind a blank; a hash
/// behind anything else is part of the value.
pub proof fn comments_are_no_values(value: Seq<char>, comment: Seq<char>)
    requires
        value.len() > 0,
        value[0] != '"',
        value[0] != '\'',
        value[0] != '#',
        !is_space(value.last()),
        forall|i: int|
            0 < i < value.len() ==> !(#[trigger] value[i] == '#' && is_space(value[i - 1])),
    ensures
        value_of(value) == value,
        value_of(value + seq![' ', '#'] + comment) == value,
{
    let n = value.len() as int;
    let whole = value + seq![' ', '#'] + comment;
    assert forall|k: int| 0 <= k < n implies !(#[trigger] comment_at(value, k)) by {
        assert(value[k] == '#' ==> k > 0 && !is_space(value[k - 1]));
    }
    assert(comment_cut(value, n));
    cuts_are_one(value, n);
    assert(value.take(n) =~= value);
    assert(trim_end_of(value) == value);
    assert(whole[n] == ' ' && whole[n + 1] == '#');
    assert forall|k: int| 0 <= k < n + 1 implies !(#[trigger] comment_at(whole, k)) by {
        if k < n {
            assert(whole[k] == value[k]);
            if k > 0 {
                assert(whole[k - 1] == value[k - 1]);
            }
            assert(!comment_at(value, k));
        }
    }
    assert(comment_at(whole, n + 1));
    assert(comment_cut(whole, n + 1));
    cuts_are_one(whole, n + 1);
    let cut = whole.take(n + 1);
    assert(cut.last() == ' ');
    assert(cut.drop_last() =~= value);
    assert(trim_end_of(cut) == trim_end_of(value));
}

proof fn cuts_are_one(s: Seq<char>, i: int)
    requires
        comment_cut(s, i),
    ensures
        uncommented_of(s) == s.take(i),
{
    let k = choose|k: int| comment_cut(s, k);
    if k < i {
        assert(comment_at(s, k));
    } else if i < k {
        assert(comment_at(s, i));
    }
}

/// A line sets its key to its value, whether or not it says that it exports it; an empty line and
/// a comment set nothing.
pub proof fn lines_set_their_keys(key: Seq<char>, value: Seq<char>, number: nat)
    requires
        key.len() > 0,
        trim_of(key) == key,
        !is_space(key[0]),
        key[0] != '#',
        forall|i: int| 0 <= i < key.len() ==> key[i] != '=',
        !starts(key + "="@ + value, "export "@),
    ensures
        setting_of(key + "="@ + value, number) == Ok::<Option<(Seq<char>, Seq<char>)>, FeedFault>(
            Some((key, value_of(trim_start_of(value)))),
        ),
        setting_of("export "@ + key + "="@ + value, number) == Ok::<
            Option<(Seq<char>, Seq<char>)>,
            FeedFault,
        >(Some((key, value_of(trim_start_of(value))))),
        setting_of(seq!['#'] + value, number) == Ok::<Option<(Seq<char>, Seq<char>)>, FeedFault>(
            None,
        ),
        setting_of(Seq::empty(), number) == Ok::<Option<(Seq<char>, Seq<char>)>, FeedFault>(None),
{
    reveal_strlit("=");
    reveal_strlit("export ");
    let line = key + "="@ + value;
    assert(line =~= key + seq!['='] + value);
    assert(line[0] == key[0]);
    assert(trim_start_of(line) == line);
    split_once_at(key, '=', value);
    let exported = "export "@ + key + "="@ + value;
    assert(exported[0] == 'e');
    assert(trim_start_of(exported) == exported);
    assert(exported.take(7) =~= "export "@);
    assert(exported.skip(7) =~= line);
    assert((seq!['#'] + value)[0] == '#');
    assert(trim_start_of(seq!['#'] + value) == seq!['#'] + value);
}

} // verus!
